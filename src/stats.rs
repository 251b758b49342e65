use vstd::prelude::*;

verus! {

/// Request counters: how many requests were served, their total processing
/// time, and how many failed. Each counter stops at its largest value.
pub struct StatsTracker {
    requests_processed: u64,
    total_processing_time_ms: u64,
    errors: u64,
}

pub struct StatsView {
    pub requests_processed: nat,
    pub total_processing_time_ms: nat,
    pub errors: nat,
}

impl View for StatsTracker {
    type V = StatsView;

    closed spec fn view(&self) -> StatsView {
        StatsView {
            requests_processed: self.requests_processed as nat,
            total_processing_time_ms: self.total_processing_time_ms as nat,
            errors: self.errors as nat,
        }
    }
}

pub open spec fn saturating(n: nat) -> nat {
    if n > u64::MAX {
        u64::MAX as nat
    } else {
        n
    }
}

impl StatsTracker {
    pub fn new() -> (r: StatsTracker)
        ensures
            r@ == (StatsView { requests_processed: 0, total_processing_time_ms: 0, errors: 0 }),
    {
        StatsTracker { requests_processed: 0, total_processing_time_ms: 0, errors: 0 }
    }

    /// Counts one served request that took `processing_time_ms`.
    pub fn log_request(&mut self, processing_time_ms: u64)
        ensures
            final(self)@ == (StatsView {
                requests_processed: saturating(old(self)@.requests_processed + 1),
                total_processing_time_ms: saturating(
                    (old(self)@.total_processing_time_ms + processing_time_ms) as nat,
                ),
                errors: old(self)@.errors,
            }),
    {
        self.requests_processed = self.requests_processed.saturating_add(1);
        self.total_processing_time_ms = self.total_processing_time_ms.saturating_add(processing_time_ms);
    }

    /// Counts one failed request.
    pub fn log_error(&mut self)
        ensures
            final(self)@ == (StatsView {
                requests_processed: old(self)@.requests_processed,
                total_processing_time_ms: old(self)@.total_processing_time_ms,
                errors: saturating(old(self)@.errors + 1),
            }),
    {
        self.errors = self.errors.saturating_add(1);
    }

    pub fn requests_processed(&self) -> (r: u64)
        ensures
            r == self@.requests_processed,
    {
        self.requests_processed
    }

    pub fn total_processing_time_ms(&self) -> (r: u64)
        ensures
            r == self@.total_processing_time_ms,
    {
        self.total_processing_time_ms
    }

    pub fn errors(&self) -> (r: u64)
        ensures
            r == self@.errors,
    {
        self.errors
    }
}

} // verus!
