//! One transfer: how it is done and what comes of it.

use vstd::prelude::*;

use crate::gym::rate_limit::RateLimiterConfig;
use crate::proto::{RecordView, TransferRecord};
use crate::text;

verus! {

/// What came of a transfer.
#[derive(Debug)]
pub struct TransferOutcome {
    /// The number of the connection.
    pub conn_id: u64,
    pub filename: String,
    pub bucket_id: String,
    pub bytes_transferred: u64,
    pub file_size_bytes: u64,
    /// Average over the whole transfer, in KiB per second.
    pub bandwidth_kibps: u32,
    pub success: bool,
    pub error_reason: Option<String>,
    pub start_time_ms: i64,
    pub end_time_ms: i64,
    /// The slice in which the transfer was started.
    pub time_slice: u32,
}

impl TransferOutcome {
    /// The outcome as the coach gets it.
    pub open spec fn record(self) -> RecordView {
        RecordView {
            filename: self.filename@,
            bucket_id: self.bucket_id@,
            bytes_transferred: self.bytes_transferred,
            file_size_bytes: self.file_size_bytes,
            bandwidth_kibps: self.bandwidth_kibps,
            success: self.success,
            error_reason: text::opt_text(self.error_reason),
            start_time_ms: self.start_time_ms,
            end_time_ms: self.end_time_ms,
            time_slice: self.time_slice,
        }
    }

    /// The outcome as the coach gets it: all but the number of the connection.
    pub fn into_proto(self) -> (r: TransferRecord)
        ensures
            r@ == self.record(),
    {
        TransferRecord {
            filename: self.filename,
            bucket_id: self.bucket_id,
            bytes_transferred: self.bytes_transferred,
            file_size_bytes: self.file_size_bytes,
            bandwidth_kibps: self.bandwidth_kibps,
            success: self.success,
            error_reason: self.error_reason,
            start_time_ms: self.start_time_ms,
            end_time_ms: self.end_time_ms,
            time_slice: self.time_slice,
        }
    }
}

/// The milliseconds between two times, at least 1.
pub open spec fn elapsed_ms(start: i64, end: i64) -> int {
    if end - start >= 1 {
        end - start
    } else {
        1
    }
}

/// The average bandwidth of a transfer in KiB per second. It is cut to 32 bits.
pub open spec fn bandwidth(bytes: u64, elapsed: int) -> u32 {
    (bytes as int / 1024 * 1000 / elapsed) as u32
}

/// The outcome of an upload that moved some bytes or failed with an error. A
/// failed transfer counts no bytes.
pub fn finish_transfer(
    conn_id: u64,
    filename: String,
    bucket_id: String,
    file_size_bytes: u64,
    result: Result<u64, String>,
    start_ms: i64,
    end_ms: i64,
    time_slice: u32,
) -> (o: TransferOutcome)
    ensures
        o.conn_id == conn_id,
        o.filename == filename,
        o.bucket_id == bucket_id,
        o.file_size_bytes == file_size_bytes,
        o.start_time_ms == start_ms,
        o.end_time_ms == end_ms,
        o.time_slice == time_slice,
        match result {
            Ok(bytes) => {
                &&& o.success
                &&& o.bytes_transferred == bytes
                &&& o.bandwidth_kibps == bandwidth(bytes, elapsed_ms(start_ms, end_ms))
                &&& o.error_reason is None
            },
            Err(e) => {
                &&& !o.success
                &&& o.bytes_transferred == 0
                &&& o.bandwidth_kibps == 0
                &&& o.error_reason == Some(e)
            },
        },
{
    match result {
        Ok(bytes) => {
            let elapsed: u64 = if end_ms > start_ms {
                (end_ms as i128 - start_ms as i128) as u64
            } else {
                1
            };
            let rate: u64 = bytes / 1024 * 1000 / elapsed;
            let bandwidth_kibps: u32 =
                #[verifier::truncate]
                (rate as u32);
            TransferOutcome {
                conn_id,
                filename,
                bucket_id,
                bytes_transferred: bytes,
                file_size_bytes,
                bandwidth_kibps,
                success: true,
                error_reason: None,
                start_time_ms: start_ms,
                end_time_ms: end_ms,
                time_slice,
            }
        },
        Err(e) => TransferOutcome {
            conn_id,
            filename,
            bucket_id,
            bytes_transferred: 0,
            file_size_bytes,
            bandwidth_kibps: 0,
            success: false,
            error_reason: Some(e),
            start_time_ms: start_ms,
            end_time_ms: end_ms,
            time_slice,
        },
    }
}

/// How the data of an upload is sent.
#[derive(Debug, Clone, Copy, PartialEq, Eq, Structural)]
pub enum UploadMode {
    /// The whole file at once.
    Plain,
    /// In chunks of this size, one per interval. Segments are limited where
    /// `mss` is not 0.
    Throttled { chunk_bytes: u32, interval_ms: u64, mss: u32 },
    /// As fast as possible over a socket whose segments are limited where `mss`
    /// is not 0.
    Streamed { mss: u32 },
}

/// How the data of an upload is sent under a rate limit, or without one.
pub fn upload_mode(rate: &Option<RateLimiterConfig>) -> (m: UploadMode)
    ensures
        m == (match *rate {
            None => UploadMode::Plain,
            Some(c) => if c.interval_ms > 0 {
                UploadMode::Throttled {
                    chunk_bytes: c.chunk_bytes,
                    interval_ms: c.interval_ms,
                    mss: c.mss,
                }
            } else {
                UploadMode::Streamed { mss: c.mss }
            },
        }),
{
    match rate {
        None => UploadMode::Plain,
        Some(c) => if c.interval_ms > 0 {
            UploadMode::Throttled {
                chunk_bytes: c.chunk_bytes,
                interval_ms: c.interval_ms,
                mss: c.mss,
            }
        } else {
            UploadMode::Streamed { mss: c.mss }
        },
    }
}

/// The average bandwidth is the whole number of KiB that moved per second, where it
/// fits its range; a transfer counts at least one millisecond.
pub proof fn law_average_bandwidth(bytes: u64, start: i64, end: i64)
    requires
        bytes as int / 1024 * 1000 / elapsed_ms(start, end) <= u32::MAX,
    ensures
        ({
            let ms = elapsed_ms(start, end);
            let kib = bytes as int / 1024;
            &&& ms >= 1
            &&& end > start ==> ms == end - start
            &&& end <= start ==> ms == 1
            &&& bandwidth(bytes, ms) * ms <= kib * 1000 < (bandwidth(bytes, ms) + 1) * ms
            &&& kib * 1024 <= bytes < (kib + 1) * 1024
        }),
{
    let ms = elapsed_ms(start, end);
    let kib = bytes as int / 1024;
    let rate = kib * 1000 / ms;
    assert(rate * ms <= kib * 1000 < (rate + 1) * ms) by (nonlinear_arith)
        requires
            ms >= 1,
            rate == kib * 1000 / ms,
    ;
    assert(rate >= 0) by (nonlinear_arith)
        requires
            ms >= 1,
            kib >= 0,
            rate == kib * 1000 / ms,
    ;
    assert(bandwidth(bytes, ms) == rate);
}

} // verus!
