//! Live server statistics — counters updated by the request tracker.
//!
//! The counters wrap on overflow, like the atomic adds they stand for;
//! callers that share one `Stats` between threads hold it behind a lock.
use vstd::prelude::*;

verus! {

#[derive(Debug, Default)]
pub struct Stats {
    /// Active connections (in-flight requests).
    active: i64,
    /// Total bytes sent in response bodies across the lifetime of the server.
    bytes_served: i64,
    /// Total HTTP error responses (4xx/5xx) since startup.
    errors: i64,
}

#[derive(Debug, Clone, Copy, Default, PartialEq, Eq, Structural)]
pub struct StatsSnapshot {
    pub active: u64,
    pub bytes_served: u64,
    pub errors: u64,
}

/// `v` clamped below at zero.
pub open spec fn non_negative(v: i64) -> u64 {
    if v < 0 {
        0
    } else {
        v as u64
    }
}

/// Two's-complement reinterpretation of a `usize` as `i64` (`n as i64`).
pub open spec fn usize_as_i64(n: usize) -> i64 {
    if n <= i64::MAX {
        n as i64
    } else {
        (n - 0x1_0000_0000_0000_0000) as i64
    }
}

impl Stats {
    pub closed spec fn active_count(&self) -> i64 {
        self.active
    }

    pub closed spec fn bytes_count(&self) -> i64 {
        self.bytes_served
    }

    pub closed spec fn error_count(&self) -> i64 {
        self.errors
    }

    pub fn new() -> (r: Self)
        ensures
            r.active_count() == 0,
            r.bytes_count() == 0,
            r.error_count() == 0,
    {
        Stats { active: 0, bytes_served: 0, errors: 0 }
    }

    pub fn on_request_start(&mut self)
        ensures
            final(self).active_count() == old(self).active_count().wrapping_add(1),
            final(self).bytes_count() == old(self).bytes_count(),
            final(self).error_count() == old(self).error_count(),
    {
        self.active = self.active.wrapping_add(1);
    }

    pub fn on_request_end(&mut self)
        ensures
            final(self).active_count() == old(self).active_count().wrapping_sub(1),
            final(self).bytes_count() == old(self).bytes_count(),
            final(self).error_count() == old(self).error_count(),
    {
        self.active = self.active.wrapping_sub(1);
    }

    pub fn add_bytes(&mut self, n: usize)
        ensures
            final(self).bytes_count() == (if n > 0 {
                old(self).bytes_count().wrapping_add(usize_as_i64(n))
            } else {
                old(self).bytes_count()
            }),
            final(self).active_count() == old(self).active_count(),
            final(self).error_count() == old(self).error_count(),
    {
        if n > 0 {
            let m: u64 = n as u64;
            let d: i64 = if m <= 0x7FFF_FFFF_FFFF_FFFFu64 {
                m as i64
            } else {
                ((m - 0x8000_0000_0000_0000u64) as i64).wrapping_add(i64::MIN)
            };
            proof {
                if n > i64::MAX {
                    assert(d == (n - 0x1_0000_0000_0000_0000) as i64);
                }
            }
            self.bytes_served = self.bytes_served.wrapping_add(d);
        }
    }

    pub fn record_error(&mut self)
        ensures
            final(self).error_count() == old(self).error_count().wrapping_add(1),
            final(self).active_count() == old(self).active_count(),
            final(self).bytes_count() == old(self).bytes_count(),
    {
        self.errors = self.errors.wrapping_add(1);
    }

    pub fn snapshot(&self) -> (r: StatsSnapshot)
        ensures
            r.active == non_negative(self.active_count()),
            r.bytes_served == non_negative(self.bytes_count()),
            r.errors == non_negative(self.error_count()),
    {
        StatsSnapshot {
            active: clamp_non_negative(self.active),
            bytes_served: clamp_non_negative(self.bytes_served),
            errors: clamp_non_negative(self.errors),
        }
    }
}

fn clamp_non_negative(v: i64) -> (r: u64)
    ensures
        r == non_negative(v),
{
    if v < 0 {
        0
    } else {
        v as u64
    }
}

/// One counter operation of a `Stats`.
pub enum StatsOp {
    Start,
    End,
    Bytes(usize),
    Error,
}

/// The counters (active, bytes, errors) after applying `ops` in order to
/// fresh counters, each step as its method states.
pub open spec fn counters_after(ops: Seq<StatsOp>) -> (i64, i64, i64)
    decreases ops.len(),
{
    if ops.len() == 0 {
        (0, 0, 0)
    } else {
        let (a, b, e) = counters_after(ops.drop_last());
        match ops.last() {
            StatsOp::Start => (a.wrapping_add(1), b, e),
            StatsOp::End => (a.wrapping_sub(1), b, e),
            StatsOp::Bytes(n) => (a, if n > 0 {
                b.wrapping_add(usize_as_i64(n))
            } else {
                b
            }, e),
            StatsOp::Error => (a, b, e.wrapping_add(1)),
        }
    }
}

/// Starts minus ends, the bytes summed, and the errors counted in `ops`.
pub open spec fn running_totals(ops: Seq<StatsOp>) -> (int, int, int)
    decreases ops.len(),
{
    if ops.len() == 0 {
        (0, 0, 0)
    } else {
        let (a, b, e) = running_totals(ops.drop_last());
        match ops.last() {
            StatsOp::Start => (a + 1, b, e),
            StatsOp::End => (a - 1, b, e),
            StatsOp::Bytes(n) => (a, b + n, e),
            StatsOp::Error => (a, b, e + 1),
        }
    }
}

/// How many operations `ops` holds plus the bytes it adds.
pub open spec fn op_weight(ops: Seq<StatsOp>) -> int
    decreases ops.len(),
{
    if ops.len() == 0 {
        0
    } else {
        op_weight(ops.drop_last()) + match ops.last() {
            StatsOp::Bytes(n) => n as int,
            _ => 1,
        }
    }
}

proof fn lemma_totals_bounded(ops: Seq<StatsOp>)
    ensures
        running_totals(ops).1 >= 0,
        running_totals(ops).2 >= 0,
        -op_weight(ops) <= running_totals(ops).0 <= op_weight(ops),
        running_totals(ops).1 + running_totals(ops).2 <= op_weight(ops),
        op_weight(ops) >= 0,
    decreases ops.len(),
{
    if ops.len() > 0 {
        lemma_totals_bounded(ops.drop_last());
    }
}

/// Fresh counters driven through any sequence of starts, ends, byte counts
/// and errors hold the running totals, as long as the totals fit in `i64`:
/// the snapshot reports starts minus ends (at least 0), the bytes summed
/// and the errors counted.
pub proof fn snapshot_after_ops(ops: Seq<StatsOp>)
    requires
        op_weight(ops) <= i64::MAX,
    ensures
        counters_after(ops).0 == running_totals(ops).0,
        counters_after(ops).1 == running_totals(ops).1,
        counters_after(ops).2 == running_totals(ops).2,
        counters_after(ops).1 >= 0,
        counters_after(ops).2 >= 0,
        non_negative(counters_after(ops).0) == (if running_totals(ops).0 < 0 {
            0
        } else {
            running_totals(ops).0
        }),
        non_negative(counters_after(ops).1) == running_totals(ops).1,
        non_negative(counters_after(ops).2) == running_totals(ops).2,
    decreases ops.len(),
{
    lemma_totals_bounded(ops);
    if ops.len() > 0 {
        let p = ops.drop_last();
        lemma_totals_bounded(p);
        assert(op_weight(p) <= op_weight(ops)) by {
            match ops.last() {
                StatsOp::Bytes(n) => {},
                _ => {},
            }
        }
        snapshot_after_ops(p);
    }
}

/// Adding `n` bytes to a byte counter that is not negative and stays
/// within `i64` adds exactly `n` to what the snapshot reports (nothing for
/// `n == 0`).
pub proof fn add_bytes_adds(b: i64, n: usize)
    requires
        0 <= b,
        b + n <= i64::MAX,
    ensures
        non_negative(
            if n > 0 {
                b.wrapping_add(usize_as_i64(n))
            } else {
                b
            },
        ) == non_negative(b) + n,
{
}

/// A request that starts and then ends leaves the active count where it was,
/// and touches no other counter.
pub proof fn request_start_end_balance(s: Stats)
    ensures
        s.active_count().wrapping_add(1).wrapping_sub(1) == s.active_count(),
{
}

} // verus!
