//! Times as plain numbers: nanoseconds, and the 90 kHz presentation clock.
use std::time::Instant;

use vstd::prelude::*;

verus! {

/// A duration, or a moment counted from some fixed one, in nanoseconds.
pub type Nanos = u128;

/// `std::time::Instant` as an opaque type.
#[verifier::external_type_specification]
#[verifier::external_body]
pub struct ExInstant(Instant);

/// `Instant::now`. Nothing is promised of the moment.
#[verifier::external_body]
pub(crate) fn now() -> (r: Instant) {
    Instant::now()
}

/// `Instant::elapsed`, in nanoseconds. Nothing is promised of how much.
#[verifier::external_body]
pub(crate) fn since(epoch: &Instant) -> (r: Nanos) {
    epoch.elapsed().as_nanos()
}

/// How long before `now` the moment `at` was; zero if it was not.
pub open spec fn age(now: Nanos, at: Nanos) -> Nanos {
    if now >= at {
        (now - at) as u128
    } else {
        0
    }
}

pub fn age_of(now: Nanos, at: Nanos) -> (r: Nanos)
    ensures
        r == age(now, at),
{
    if now >= at {
        now - at
    } else {
        0
    }
}

/// The period of the 33-bit presentation clock.
pub const PTS_PERIOD: u64 = 0x2_0000_0000;

/// Trailing content longer than this many ticks, five minutes, is read as a
/// PTS wrap or a reordered frame, not a real gap: the window holds at most
/// tens of seconds of content, so anything approaching the 26.5-hour PTS
/// period is an artefact.
pub const MAX_SANE_TRAILING: u64 = 27_000_000;

/// A number of 90 kHz ticks in nanoseconds, rounded to the nearest.
pub open spec fn ticks_to_nanos(ticks: int) -> Nanos {
    ((ticks * 100_000 + 4) / 9) as u128
}

/// A forward PTS distance as a duration, or none if it is out of range: a
/// wrap, or a `to` that precedes `from` (frame reordering near the edge).
pub open spec fn gap(from: u64, to: u64) -> Option<Nanos> {
    let ticks = (to - from) % (PTS_PERIOD as int);
    if ticks <= MAX_SANE_TRAILING {
        Some(ticks_to_nanos(ticks))
    } else {
        None
    }
}

/// A forward PTS distance as a duration, or `None` if it is out of range:
/// a wrap, or a `to` that precedes `from` (frame reordering near the edge).
pub fn pts_gap(from: u64, to: u64) -> (r: Option<Nanos>)
    ensures
        r == gap(from, to),
{
    let ticks: u64 = if to >= from {
        (to - from) % PTS_PERIOD
    } else {
        let back: u64 = (from - to) % PTS_PERIOD;
        proof {
            let whole = (from - to) / 0x2_0000_0000;
            assert(to - from == -(whole * 0x2_0000_0000) - back);
            if back > 0 {
                assert((to - from) == (-whole - 1) * 0x2_0000_0000 + (0x2_0000_0000 - back));
            }
        }
        if back == 0 {
            0
        } else {
            PTS_PERIOD - back
        }
    };
    if ticks > MAX_SANE_TRAILING {
        return None;
    }
    Some((ticks as u128 * 100_000 + 4) / 9)
}

/// Distances do not depend on where the 33-bit clock wraps.
pub proof fn law_gap_survives_a_wrap(from: u64, to: u64, by: u64)
    requires
        from < PTS_PERIOD,
        to < PTS_PERIOD,
    ensures
        gap(
            ((from + by) % PTS_PERIOD as int) as u64,
            ((to + by) % PTS_PERIOD as int) as u64,
        ) == gap(from, to),
{
    let p: int = 0x2_0000_0000;
    let a = (from + by) % p;
    let b = (to + by) % p;
    let qa = (from + by) / p;
    let qb = (to + by) / p;
    assert(from + by == qa * p + a);
    assert(to + by == qb * p + b);
    assert(to - from == (b - a) + (qb - qa) * p);
    assert((to - from) % p == (b - a) % p) by {
        vstd::arithmetic::div_mod::lemma_mod_multiples_vanish(qb - qa, b - a, p);
        assert((qb - qa) * p + (b - a) == to - from);
        assert(p * (qb - qa) == (qb - qa) * p) by (nonlinear_arith);
    }
}

} // verus!
