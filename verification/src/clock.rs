//! Elapsed time shown as hours, minutes, seconds and milliseconds.

use vstd::prelude::*;

verus! {

/// `(hours, minutes, seconds, milliseconds)` of a duration of `total_ms` milliseconds:
/// minutes and seconds wrap at 60, milliseconds at 1000, hours do not wrap.
pub open spec fn time_parts(total_ms: u64) -> (u64, u64, u64, u64) {
    let total_s = total_ms / 1000;
    ((total_s / 3600) as u64, ((total_s / 60) % 60) as u64, (total_s % 60) as u64, (total_ms % 1000) as u64)
}

/// The clock reading of a duration given in milliseconds.
pub fn split_millis(total_ms: u64) -> (res: (u64, u64, u64, u64))
    ensures
        res == time_parts(total_ms),
        res.1 < 60 && res.2 < 60 && res.3 < 1000,
        res.0 * 3_600_000 + res.1 * 60_000 + res.2 * 1000 + res.3 == total_ms,
{
    let ms = total_ms % 1000;
    let total_s = total_ms / 1000;
    let secs = total_s % 60;
    let mins = (total_s / 60) % 60;
    let hours = total_s / 3600;
    proof {
        lemma_parts_sum(total_ms as int);
    }
    (hours, mins, secs, ms)
}

proof fn lemma_parts_sum(t: int)
    requires
        t >= 0,
    ensures
        (t / 1000 / 3600) * 3_600_000 + ((t / 1000 / 60) % 60) * 60_000 + ((t / 1000) % 60) * 1000
            + t % 1000 == t,
{
    let s = t / 1000;
    assert(t == s * 1000 + t % 1000) by (nonlinear_arith)
        requires
            s == t / 1000,
            t >= 0,
    ;
    let m = s / 60;
    assert(s == m * 60 + s % 60) by (nonlinear_arith)
        requires
            m == s / 60,
            s >= 0,
    ;
    assert(m == (m / 60) * 60 + m % 60) by (nonlinear_arith)
        requires
            m >= 0,
    ;
    assert(m / 60 == s / 3600) by (nonlinear_arith)
        requires
            m == s / 60,
            s >= 0,
    ;
    assert((s / 3600) * 3_600_000 + (m % 60) * 60_000 + (s % 60) * 1000 + t % 1000 == t)
        by (nonlinear_arith)
        requires
            t == s * 1000 + t % 1000,
            s == m * 60 + s % 60,
            m == (m / 60) * 60 + m % 60,
            m / 60 == s / 3600,
    ;
}

} // verus!
