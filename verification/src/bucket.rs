//! Token buckets: a byte budget per 500 ms window.
//!
//! A bucket accumulates the sizes of charged packets.  When a charge arrives
//! 500 ms or more after the window started, the window restarts empty.  A
//! charge is accepted only while the accumulated bytes stay strictly below
//! the limit.  The caller supplies the clock as milliseconds from a monotonic
//! epoch.

use vstd::prelude::*;

verus! {

/// The length of a rate window in milliseconds.
pub const WINDOW_MS: u64 = 500;

/// One token bucket: accumulated bytes, window start, and the byte limit.
#[derive(Clone, Copy, PartialEq, Eq, Structural, Debug)]
pub struct Bucket {
    pub bytes: usize,
    pub timestamp_ms: u64,
    pub limit: usize,
}

/// Whether a charge at `now_ms` starts a fresh window.
pub open spec fn spec_window_expired(b: Bucket, now_ms: u64) -> bool {
    now_ms >= b.timestamp_ms + WINDOW_MS
}

/// The bucket as a charge at `now_ms` sees it: emptied when the window
/// expired, unchanged otherwise.
pub open spec fn spec_refresh(b: Bucket, now_ms: u64) -> Bucket {
    if spec_window_expired(b, now_ms) {
        Bucket { bytes: 0, timestamp_ms: now_ms, limit: b.limit }
    } else {
        b
    }
}

/// Whether a charge of `size` bytes at `now_ms` is accepted: the refreshed
/// byte count plus the charge stays strictly below the limit.
pub open spec fn spec_charge_ok(b: Bucket, size: usize, now_ms: u64) -> bool {
    spec_refresh(b, now_ms).bytes + size < b.limit
}

/// The bucket after a charge of `size` bytes at `now_ms`.
pub open spec fn spec_charge(b: Bucket, size: usize, now_ms: u64) -> Bucket {
    let r = spec_refresh(b, now_ms);
    if r.bytes + size < r.limit {
        Bucket { bytes: (r.bytes + size) as usize, timestamp_ms: r.timestamp_ms, limit: r.limit }
    } else {
        r
    }
}

/// The bucket never holds a byte count at or above its limit, except that an
/// empty bucket is always fine.
pub open spec fn spec_bucket_wf(b: Bucket) -> bool {
    b.bytes == 0 || b.bytes < b.limit
}

impl Bucket {
    /// A fresh, empty bucket with the given byte limit, whose first window
    /// starts at `now_ms`.
    pub fn new(limit: usize, now_ms: u64) -> (r: Bucket)
        ensures
            r == (Bucket { bytes: 0, timestamp_ms: now_ms, limit }),
            spec_bucket_wf(r),
    {
        Bucket { bytes: 0, timestamp_ms: now_ms, limit }
    }

    /// The accumulated bytes as of `now_ms`, restarting the window when it
    /// has expired.
    pub fn bytes(&mut self, now_ms: u64) -> (r: usize)
        ensures
            *final(self) == spec_refresh(*old(self), now_ms),
            r == final(self).bytes,
    {
        if now_ms >= self.timestamp_ms && now_ms - self.timestamp_ms >= WINDOW_MS {
            self.timestamp_ms = now_ms;
            self.bytes = 0;
        }
        self.bytes
    }

    /// Charges `size` bytes to the bucket at `now_ms`.  Returns whether the
    /// bucket had room; a rejected charge leaves the refreshed count as it
    /// was.
    pub fn stuff(&mut self, size: usize, now_ms: u64) -> (r: bool)
        ensures
            *final(self) == spec_charge(*old(self), size, now_ms),
            r == spec_charge_ok(*old(self), size, now_ms),
    {
        let current = self.bytes(now_ms);
        if size < self.limit && current < self.limit - size {
            self.bytes = current + size;
            true
        } else {
            false
        }
    }
}

/// An accepted charge leaves the byte count strictly below the limit, and a
/// charge never breaks the bucket's bound: per 500 ms window at most
/// `limit - 1` bytes are ever accepted.
pub proof fn lemma_charge_preserves_bound(b: Bucket, size: usize, now_ms: u64)
    requires
        spec_bucket_wf(b),
    ensures
        spec_bucket_wf(spec_charge(b, size, now_ms)),
        spec_charge_ok(b, size, now_ms) ==> spec_charge(b, size, now_ms).bytes < b.limit,
{
}

/// Two charges less than 500 ms apart accumulate: the second sees the bytes
/// the first left behind.  A second charge 500 ms or more after the window
/// started sees an empty bucket again.
pub proof fn lemma_charge_accumulates_then_resets(
    b: Bucket,
    s1: usize,
    t1: u64,
    s2: usize,
    t2: u64,
)
    requires
        spec_charge_ok(b, s1, t1),
    ensures
        ({
            let b1 = spec_charge(b, s1, t1);
            &&& (t2 < b1.timestamp_ms + WINDOW_MS ==> spec_refresh(b1, t2).bytes == spec_refresh(
                b,
                t1,
            ).bytes + s1)
            &&& (t2 >= b1.timestamp_ms + WINDOW_MS ==> spec_refresh(b1, t2).bytes == 0)
        }),
{
}

} // verus!
