//! Flush policy configuration for `MemoryMappedFile`.
//!
//! Controls when writes to a read-write mapping are flushed to disk, and
//! holds the decision core of the time-based flusher: the background worker
//! thread that drives it lives outside the verified library and asks this
//! core, with the clock readings it took, whether the flush callback is due.

use vstd::prelude::*;

verus! {

/// Policy controlling when to flush dirty pages to disk.
#[derive(Debug, Clone, Copy, PartialEq, Eq, Structural, Default)]
pub enum FlushPolicy {
    /// Never flush implicitly; `flush` must be called by the user.
    #[default]
    Never,
    /// Alias of `Never` for semantic clarity when using the builder API.
    Manual,
    /// Flush after every write (every `update_region` call).
    Always,
    /// Flush when at least N bytes have been written since the last flush.
    EveryBytes(usize),
    /// Flush after every W writes (calls to `update_region`).
    EveryWrites(usize),
    /// Flush automatically every N milliseconds while writes are pending.
    EveryMillis(u64),
}

/// Whether a write that brought the counters to `bytes` bytes and `writes`
/// writes since the last flush must be followed by an implicit flush.
///
/// `Never` and `Manual` never trigger; `EveryMillis` triggers no inline
/// flush either, because its flushes come from the background worker.
pub open spec fn spec_flush_due(policy: FlushPolicy, bytes: nat, writes: nat) -> bool {
    match policy {
        FlushPolicy::Always => true,
        FlushPolicy::EveryBytes(n) => bytes >= n,
        FlushPolicy::EveryWrites(w) => writes >= w,
        _ => false,
    }
}

/// Whether a write that brought the counters to `bytes` bytes and `writes`
/// writes since the last flush must be followed by an implicit flush.
pub fn flush_due(policy: FlushPolicy, bytes: usize, writes: usize) -> (r: bool)
    ensures
        r == spec_flush_due(policy, bytes as nat, writes as nat),
{
    match policy {
        FlushPolicy::Always => true,
        FlushPolicy::EveryBytes(n) => bytes >= n,
        FlushPolicy::EveryWrites(w) => writes >= w,
        _ => false,
    }
}

/// Decision core of the time-based flusher.
///
/// Timestamps are milliseconds read from a monotonic clock by the caller.
/// The background worker sleeps for `interval_ms`, reads the clock, and asks
/// `should_flush`; when the flush callback it then invokes reports success it
/// records the new timestamp, otherwise the timestamp is left unchanged and
/// the flush is retried on the next tick. Manual flushes performed by the
/// owning mapping call `manual_flush` so that the worker does not
/// double-flush immediately after.
pub struct FlushTimer {
    /// Cadence of the background worker, in milliseconds; always positive.
    pub interval_ms: u64,
    /// Clock reading at the last recorded successful flush; `None` before
    /// the first one.
    pub last_flush_ms: Option<u64>,
}

/// Whether at least one interval has elapsed at clock reading `now_ms` since
/// the last recorded flush; a flush is always due before the first one.
pub open spec fn spec_timer_due(timer: FlushTimer, now_ms: u64) -> bool {
    match timer.last_flush_ms {
        Option::None => true,
        Option::Some(last) => now_ms >= last && now_ms - last >= timer.interval_ms,
    }
}

impl FlushTimer {
    /// Create a timer with the given interval, taking `now_ms` as the moment
    /// of creation. Refused (`None`) when the interval is zero.
    pub fn new(interval_ms: u64, now_ms: u64) -> (r: Option<FlushTimer>)
        ensures
            interval_ms == 0 ==> r is None,
            interval_ms > 0 ==> r == Some(
                FlushTimer { interval_ms, last_flush_ms: Some(now_ms) },
            ),
    {
        if interval_ms == 0 {
            None
        } else {
            Some(FlushTimer { interval_ms, last_flush_ms: Some(now_ms) })
        }
    }

    /// Whether the periodic flush is due at clock reading `now_ms`.
    pub fn should_flush(&self, now_ms: u64) -> (r: bool)
        ensures
            r == spec_timer_due(*self, now_ms),
    {
        match self.last_flush_ms {
            Option::None => true,
            Option::Some(last) => now_ms >= last && now_ms - last >= self.interval_ms,
        }
    }

    /// Record a flush performed at clock reading `now_ms`, whether it was
    /// triggered by the worker or by the owning mapping.
    pub fn manual_flush(&mut self, now_ms: u64)
        ensures
            final(self).interval_ms == old(self).interval_ms,
            final(self).last_flush_ms == Some(now_ms),
    {
        self.last_flush_ms = Some(now_ms);
    }
}

} // verus!
