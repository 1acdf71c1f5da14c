//! Judgment tiers: classification of a press or release by its absolute
//! timing offset from the note it answers.

use vstd::prelude::*;

verus! {

/// Largest absolute offset, in microseconds, still classified `Perfect`.
pub const PERFECT_WINDOW_US: i64 = 40_000;
/// Largest absolute offset, in microseconds, still classified `Great`.
pub const GREAT_WINDOW_US: i64 = 75_000;
/// Largest absolute offset, in microseconds, still classified `Good`.
pub const GOOD_WINDOW_US: i64 = 110_000;
/// Largest absolute offset, in microseconds, still classified `Ok`; it is
/// also the eligibility window: a press only answers a note strictly closer
/// than this.
pub const OK_WINDOW_US: i64 = 135_000;

/// A judgment tier for one head, tail or tap event.
#[derive(Clone, Copy, Debug, PartialEq, Eq, Structural)]
pub enum HitJudgment {
    Perfect,
    Great,
    Good,
    Okay,
    Miss,
}

impl HitJudgment {
    /// The tier earned by an absolute timing offset of `abs_diff_us`
    /// microseconds.
    pub open spec fn tier_spec(abs_diff_us: int) -> HitJudgment {
        if abs_diff_us <= PERFECT_WINDOW_US {
            HitJudgment::Perfect
        } else if abs_diff_us <= GREAT_WINDOW_US {
            HitJudgment::Great
        } else if abs_diff_us <= GOOD_WINDOW_US {
            HitJudgment::Good
        } else if abs_diff_us <= OK_WINDOW_US {
            HitJudgment::Okay
        } else {
            HitJudgment::Miss
        }
    }

    /// Classify an absolute timing offset (microseconds) into a tier.
    pub fn from_timing(abs_diff_us: i64) -> (r: HitJudgment)
        ensures
            r == Self::tier_spec(abs_diff_us as int),
    {
        if abs_diff_us <= PERFECT_WINDOW_US {
            HitJudgment::Perfect
        } else if abs_diff_us <= GREAT_WINDOW_US {
            HitJudgment::Great
        } else if abs_diff_us <= GOOD_WINDOW_US {
            HitJudgment::Good
        } else if abs_diff_us <= OK_WINDOW_US {
            HitJudgment::Okay
        } else {
            HitJudgment::Miss
        }
    }

    /// Score awarded for one event of this tier.
    pub open spec fn score_spec(self) -> int {
        match self {
            HitJudgment::Perfect => 300,
            HitJudgment::Great => 200,
            HitJudgment::Good => 100,
            HitJudgment::Okay => 50,
            HitJudgment::Miss => 0,
        }
    }

    pub fn score_value(&self) -> (r: i32)
        ensures
            r == self.score_spec(),
    {
        match self {
            HitJudgment::Perfect => 300,
            HitJudgment::Great => 200,
            HitJudgment::Good => 100,
            HitJudgment::Okay => 50,
            HitJudgment::Miss => 0,
        }
    }

    /// Display label of the tier.
    pub fn text(&self) -> (r: &'static str)
        ensures
            *self == HitJudgment::Perfect ==> r@ == "PERFECT"@,
            *self == HitJudgment::Great ==> r@ == "GREAT"@,
            *self == HitJudgment::Good ==> r@ == "GOOD"@,
            *self == HitJudgment::Okay ==> r@ == "OK"@,
            *self == HitJudgment::Miss ==> r@ == "MISS"@,
    {
        match self {
            HitJudgment::Perfect => "PERFECT",
            HitJudgment::Great => "GREAT",
            HitJudgment::Good => "GOOD",
            HitJudgment::Okay => "OK",
            HitJudgment::Miss => "MISS",
        }
    }
}

} // verus!
