//! The files that an agent uploads: one per bucket, of a random size within the
//! bucket. They are made once and used for all transfers.

use vstd::prelude::*;

use crate::coach::control;
use crate::coach::control::join_path;
use crate::proto::{BucketView, FileSizeBucket};
use crate::text;

verus! {

/// The bytes that are written at a time.
pub const CHUNK_SIZE: u64 = 8192;

/// `rand::random::<u64>`: any number.
#[verifier::external_body]
fn random_u64() -> u64 {
    rand::random::<u64>()
}

/// Whether a size is at least 1 and within `[min, max)` of a bucket.
pub open spec fn fits_bucket(size: u64, b: BucketView) -> bool {
    size >= 1 && b.size_min_bytes <= size < b.size_max_bytes
}

/// Whether a file of this size can be used for a bucket. An empty file cannot,
/// even where the bucket starts at 0.
pub fn size_in_bucket(size: u64, bucket: &FileSizeBucket) -> (yes: bool)
    ensures
        yes == fits_bucket(size, bucket@),
{
    let min: u64 = if bucket.size_min_bytes == 0 {
        1
    } else {
        bucket.size_min_bytes
    };
    size >= min && size < bucket.size_max_bytes
}

/// The path of the file of a bucket.
pub open spec fn bucket_path(work_dir: Seq<char>, agent_id: Seq<char>, bucket_id: Seq<char>) -> Seq<
    char,
> {
    control::joined(work_dir, "bucket_"@ + agent_id + "_"@ + bucket_id + ".dat"@)
}

/// The path of the file of a bucket, below the working directory.
pub fn bucket_file_path(work_dir: &str, agent_id: &str, bucket_id: &str) -> (out: String)
    ensures
        out@ == bucket_path(work_dir@, agent_id@, bucket_id@),
{
    let mut name = text::copy_str("bucket_");
    name.push_str(agent_id);
    name.push_str("_");
    name.push_str(bucket_id);
    name.push_str(".dat");
    join_path(work_dir, name.as_str())
}

/// The size that a random number stands for: within `[min, max)`, or the
/// smallest size of at least 1 where that range is empty.
pub open spec fn drawn_size(b: BucketView, draw: u64) -> int {
    if b.size_max_bytes <= b.size_min_bytes {
        if b.size_min_bytes == 0 {
            1
        } else {
            b.size_min_bytes as int
        }
    } else {
        b.size_min_bytes + draw as int % (b.size_max_bytes - b.size_min_bytes)
    }
}

/// The size that a random number stands for.
pub fn size_for_draw(bucket: &FileSizeBucket, draw: u64) -> (size: u64)
    ensures
        size == drawn_size(bucket@, draw),
{
    let min: u64 = bucket.size_min_bytes;
    let max: u64 = bucket.size_max_bytes;
    if max <= min {
        return if min == 0 {
            1
        } else {
            min
        };
    }
    let span: u64 = max - min;
    proof {
        vstd::arithmetic::div_mod::lemma_mod_bound(draw as int, span as int);
    }
    min + draw % span
}

/// A random size for the file of a bucket.
pub fn random_size_in_bucket(bucket: &FileSizeBucket) -> (size: u64)
    ensures
        exists|draw: u64| size == #[trigger] drawn_size(bucket@, draw),
        bucket.size_min_bytes < bucket.size_max_bytes ==> bucket.size_min_bytes <= size
            < bucket.size_max_bytes,
{
    let draw: u64 = random_u64();
    proof {
        if bucket.size_min_bytes < bucket.size_max_bytes {
            vstd::arithmetic::div_mod::lemma_mod_bound(
                draw as int,
                bucket.size_max_bytes - bucket.size_min_bytes,
            );
        }
    }
    size_for_draw(bucket, draw)
}

/// What is to be done for the file of a bucket.
#[derive(Debug)]
pub struct FileOrder {
    pub bucket_id: String,
    pub path: String,
    /// The size of the file to write; `None` where the file that is there can be
    /// used.
    pub write_bytes: Option<u64>,
}

/// Decides about the file of a bucket, where `existing` is the size of the file
/// that is there: it is used if its size fits the bucket, otherwise a new one of
/// a random size is to be written.
pub fn file_order(work_dir: &str, agent_id: &str, bucket: &FileSizeBucket, existing: Option<u64>)
    -> (o: FileOrder)
    ensures
        o.bucket_id@ == bucket.bucket_id@,
        o.path@ == bucket_path(work_dir@, agent_id@, bucket.bucket_id@),
        o.write_bytes is None <==> (existing is Some && fits_bucket(existing->0, bucket@)),
        o.write_bytes matches Some(n) ==> exists|draw: u64| n == #[trigger] drawn_size(bucket@, draw),
{
    let path = bucket_file_path(work_dir, agent_id, bucket.bucket_id.as_str());
    let usable: bool = match existing {
        Some(size) => size_in_bucket(size, bucket),
        None => false,
    };
    let write_bytes: Option<u64> = if usable {
        None
    } else {
        Some(random_size_in_bucket(bucket))
    };
    FileOrder { bucket_id: text::copy_str(bucket.bucket_id.as_str()), path, write_bytes }
}

/// The bytes to write next of a file of `target` bytes, of which `written` are
/// there.
pub fn next_chunk(target: u64, written: u64) -> (n: u64)
    requires
        written <= target,
    ensures
        n == (if target - written <= CHUNK_SIZE {
            target - written
        } else {
            CHUNK_SIZE as int
        }),
        written + n <= target,
        n == 0 <==> written == target,
{
    let remaining: u64 = target - written;
    if remaining <= CHUNK_SIZE {
        remaining
    } else {
        CHUNK_SIZE
    }
}

/// A file that was written for a bucket can be used for that bucket, unless it is
/// empty.
pub proof fn law_written_file_is_reused(b: BucketView, draw: u64)
    requires
        b.size_min_bytes < b.size_max_bytes,
        drawn_size(b, draw) != 0,
    ensures
        0 <= drawn_size(b, draw) <= u64::MAX,
        fits_bucket(drawn_size(b, draw) as u64, b),
{
    vstd::arithmetic::div_mod::lemma_mod_bound(
        draw as int,
        b.size_max_bytes - b.size_min_bytes,
    );
}

/// Every size of a bucket can be drawn, and no other.
pub proof fn law_draws_cover_the_bucket(b: BucketView, draw: u64, size: u64)
    requires
        b.size_min_bytes < b.size_max_bytes,
        b.size_min_bytes <= size < b.size_max_bytes,
    ensures
        b.size_min_bytes <= drawn_size(b, draw) < b.size_max_bytes,
        drawn_size(b, (size - b.size_min_bytes) as u64) == size,
{
    let span = b.size_max_bytes - b.size_min_bytes;
    vstd::arithmetic::div_mod::lemma_mod_bound(draw as int, span);
    vstd::arithmetic::div_mod::lemma_small_mod((size - b.size_min_bytes) as nat, span as nat);
}

/// An empty range gives its lower end, though never an empty file.
pub proof fn law_empty_range_gives_its_start(b: BucketView, draw: u64)
    requires
        b.size_max_bytes <= b.size_min_bytes,
    ensures
        drawn_size(b, draw) >= 1,
        b.size_min_bytes > 0 ==> drawn_size(b, draw) == b.size_min_bytes,
        b.size_min_bytes == 0 ==> drawn_size(b, draw) == 1,
{
}

/// The files of two buckets of an agent lie in different places.
pub proof fn law_bucket_files_are_distinct(
    dir: Seq<char>,
    agent: Seq<char>,
    a: Seq<char>,
    b: Seq<char>,
)
    requires
        bucket_path(dir, agent, a) == bucket_path(dir, agent, b),
    ensures
        a == b,
{
    let head = if dir.len() == 0 || dir.last() == '/' {
        dir
    } else {
        dir + "/"@
    };
    let front = head + ("bucket_"@ + agent + "_"@);
    let left = front + a + ".dat"@;
    let right = front + b + ".dat"@;
    assert(bucket_path(dir, agent, a) =~= left);
    assert(bucket_path(dir, agent, b) =~= right);
    assert(a.len() == b.len());
    assert(a =~= b) by {
        assert forall|i: int| 0 <= i < a.len() implies a[i] == b[i] by {
            assert(left[front.len() + i] == a[i]);
            assert(right[front.len() + i] == b[i]);
        }
    }
}

/// A file can be used for a bucket where it is not empty, not smaller than the least
/// size and smaller than the largest; nothing fits two buckets that lie apart.
pub proof fn law_size_of_a_bucket(size: u64, a: BucketView, b: BucketView)
    ensures
        !fits_bucket(0, a),
        !fits_bucket(a.size_max_bytes, a),
        0 < a.size_min_bytes < a.size_max_bytes ==> fits_bucket(a.size_min_bytes, a),
        a.size_min_bytes < size < a.size_max_bytes ==> fits_bucket(size, a),
        size < a.size_min_bytes || size > a.size_max_bytes ==> !fits_bucket(size, a),
        a.size_max_bytes <= b.size_min_bytes ==> !(fits_bucket(size, a) && fits_bucket(size, b)),
{
}

} // verus!
