//! Usage metering: per-tenant counters of queries, rows scanned and GPU
//! time, read and reset when they are flushed to billing.

use vstd::prelude::*;

verus! {

/// Usage counters for a single tenant. Counters wrap around on overflow.
#[derive(Debug, Default)]
pub struct TenantMeter {
    /// Total queries executed.
    pub query_count: usize,
    /// Total rows scanned across all queries.
    pub rows_scanned: usize,
    /// Cumulative GPU milliseconds consumed.
    pub gpu_ms: usize,
}

/// `a + b` wrapped to `usize`.
pub open spec fn wrap_add(a: usize, b: usize) -> usize {
    if a + b <= usize::MAX {
        (a + b) as usize
    } else {
        (a + b - usize::MAX - 1) as usize
    }
}

impl TenantMeter {
    /// A zeroed meter.
    pub fn new() -> (r: Self)
        ensures
            r.query_count == 0,
            r.rows_scanned == 0,
            r.gpu_ms == 0,
    {
        TenantMeter { query_count: 0, rows_scanned: 0, gpu_ms: 0 }
    }

    /// Record one query that scanned `rows` rows and used `gpu_time_ms`.
    pub fn record_query(&mut self, rows: usize, gpu_time_ms: usize)
        ensures
            final(self).query_count == wrap_add(old(self).query_count, 1),
            final(self).rows_scanned == wrap_add(old(self).rows_scanned, rows),
            final(self).gpu_ms == wrap_add(old(self).gpu_ms, gpu_time_ms),
    {
        self.query_count = self.query_count.wrapping_add(1);
        self.rows_scanned = self.rows_scanned.wrapping_add(rows);
        self.gpu_ms = self.gpu_ms.wrapping_add(gpu_time_ms);
    }

    /// Read and reset all counters: `(queries, rows, gpu_ms)`.
    pub fn flush(&mut self) -> (r: (usize, usize, usize))
        ensures
            r == (old(self).query_count, old(self).rows_scanned, old(self).gpu_ms),
            final(self).query_count == 0,
            final(self).rows_scanned == 0,
            final(self).gpu_ms == 0,
    {
        let r = (self.query_count, self.rows_scanned, self.gpu_ms);
        self.query_count = 0;
        self.rows_scanned = 0;
        self.gpu_ms = 0;
        r
    }
}

/// The counters after recording each `(rows, gpu_ms)` of `recs` in turn,
/// starting from `start` (as [`TenantMeter::record_query`] states).
pub open spec fn recorded(start: (usize, usize, usize), recs: Seq<(usize, usize)>) -> (usize, usize, usize)
    decreases recs.len(),
{
    if recs.len() == 0 {
        start
    } else {
        let p = recorded(start, recs.drop_last());
        (wrap_add(p.0, 1), wrap_add(p.1, recs.last().0), wrap_add(p.2, recs.last().1))
    }
}

/// The rows of the recordings, summed.
pub open spec fn total_rows(recs: Seq<(usize, usize)>) -> int
    decreases recs.len(),
{
    if recs.len() == 0 {
        0
    } else {
        total_rows(recs.drop_last()) + recs.last().0
    }
}

/// The GPU milliseconds of the recordings, summed.
pub open spec fn total_gpu(recs: Seq<(usize, usize)>) -> int
    decreases recs.len(),
{
    if recs.len() == 0 {
        0
    } else {
        total_gpu(recs.drop_last()) + recs.last().1
    }
}

/// A fresh meter that records `n` queries holds their count and totals,
/// which the next flush returns (leaving zeros), when nothing wraps.
pub proof fn lemma_flush_totals(recs: Seq<(usize, usize)>)
    requires
        recs.len() <= usize::MAX,
        total_rows(recs) <= usize::MAX,
        total_gpu(recs) <= usize::MAX,
    ensures
        recorded((0, 0, 0), recs).0 == recs.len(),
        recorded((0, 0, 0), recs).1 == total_rows(recs),
        recorded((0, 0, 0), recs).2 == total_gpu(recs),
    decreases recs.len(),
{
    lemma_totals_nonneg(recs);
    if recs.len() > 0 {
        let p = recs.drop_last();
        assert(total_rows(p) <= total_rows(recs) && total_gpu(p) <= total_gpu(recs)) by {
            lemma_totals_nonneg(p);
        }
        lemma_flush_totals(p);
    }
}

proof fn lemma_totals_nonneg(recs: Seq<(usize, usize)>)
    ensures
        total_rows(recs) >= 0,
        total_gpu(recs) >= 0,
    decreases recs.len(),
{
    if recs.len() > 0 {
        lemma_totals_nonneg(recs.drop_last());
    }
}

/// The metering coordinator (no billing backend yet).
pub struct MeteringSystem {}

impl MeteringSystem {
    /// An idle metering system.
    pub fn new() -> (r: Self) {
        MeteringSystem {  }
    }
}

impl Default for MeteringSystem {
    fn default() -> (r: Self) {
        Self::new()
    }
}

} // verus!
