//! Timing points and the scroll-velocity lookup.
//!
//! Beat lengths are microseconds (chart milliseconds scaled by a thousand);
//! velocity multipliers are thousandths, so `2000` means twice the base
//! velocity.

use vstd::prelude::*;

use crate::decimal::MAX_ABS_SCALED;

verus! {

/// Beat length used when a chart defines no timing point (500 ms).
pub const DEFAULT_BEAT_LEN_US: i64 = 500_000;

/// Velocity multiplier of an uninherited point (1.0).
pub const DEFAULT_VEL_X1000: i64 = 1000;

/// Largest velocity multiplier an inherited point can encode (x1000).
pub const MAX_VEL_X1000: i64 = 100_000_000;

/// One row of the timing table.
#[derive(Clone, Copy, Debug, PartialEq, Eq, Structural)]
pub struct TimingPoint {
    /// When this point takes effect (microseconds).
    pub time_us: i64,
    /// Beat length in effect from this point on (microseconds).
    pub beat_len_us: i64,
    /// Scroll-velocity multiplier in effect (thousandths).
    pub vel_x1000: i64,
}

impl TimingPoint {
    /// Bounds the parser guarantees; they keep the slider-duration product
    /// inside `i128`.
    pub open spec fn wf(self) -> bool {
        &&& -MAX_ABS_SCALED <= self.time_us <= MAX_ABS_SCALED
        &&& 0 < self.beat_len_us <= MAX_ABS_SCALED
        &&& 0 <= self.vel_x1000 <= MAX_VEL_X1000
    }
}

/// The active beat length and velocity at time `t`: those of the last point
/// in table order whose time is at or before `t`, or the defaults when no
/// point qualifies.
pub open spec fn velocity_at_spec(s: Seq<TimingPoint>, t: int) -> (i64, i64)
    decreases s.len(),
{
    if s.len() == 0 {
        (DEFAULT_BEAT_LEN_US, DEFAULT_VEL_X1000)
    } else if s.last().time_us <= t {
        (s.last().beat_len_us, s.last().vel_x1000)
    } else {
        velocity_at_spec(s.drop_last(), t)
    }
}

/// The lookup keeps the table's bounds (or returns the bounded defaults).
pub proof fn lemma_velocity_at_wf(s: Seq<TimingPoint>, t: int)
    requires
        forall|i: int| 0 <= i < s.len() ==> (#[trigger] s[i]).wf(),
    ensures
        0 < velocity_at_spec(s, t).0 <= MAX_ABS_SCALED,
        0 <= velocity_at_spec(s, t).1 <= MAX_VEL_X1000,
    decreases s.len(),
{
    if s.len() > 0 && !(s.last().time_us <= t) {
        lemma_velocity_at_wf(s.drop_last(), t);
    }
}

/// Look up the active beat length and velocity multiplier at time `t`.
pub fn velocity_at(points: &Vec<TimingPoint>, t: i64) -> (r: (i64, i64))
    ensures
        r == velocity_at_spec(points@, t as int),
{
    let mut i = points.len();
    proof {
        assert(points@.take(points@.len() as int) =~= points@);
    }
    while i > 0
        invariant
            0 <= i <= points@.len(),
            velocity_at_spec(points@, t as int) == velocity_at_spec(
                points@.take(i as int),
                t as int,
            ),
        decreases i,
    {
        i = i - 1;
        let p = points[i];
        proof {
            assert(points@.take(i as int + 1).last() == points@[i as int]);
            assert(points@.take(i as int + 1).drop_last() =~= points@.take(i as int));
        }
        if p.time_us <= t {
            return (p.beat_len_us, p.vel_x1000);
        }
    }
    proof {
        assert(points@.take(0) =~= Seq::<TimingPoint>::empty());
    }
    (DEFAULT_BEAT_LEN_US, DEFAULT_VEL_X1000)
}

/// The velocity multiplier an inherited timing point encodes: a negative
/// value `v` (thousandths) means `-100 / v` times the base velocity, here
/// rounded toward zero in thousandths.  An encoded `-50` gives `2000`
/// (twice the base), a `-200` gives `500` (half of it).
pub fn inherited_velocity(value_x1000: i64) -> (r: i64)
    requires
        -MAX_ABS_SCALED <= value_x1000 < 0,
    ensures
        r == MAX_VEL_X1000 as int / -(value_x1000 as int),
        0 <= r <= MAX_VEL_X1000,
{
    let denom = -value_x1000;
    MAX_VEL_X1000 / denom
}

} // verus!
