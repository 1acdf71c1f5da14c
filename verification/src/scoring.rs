//! Session scoring: hit-count buckets, weighted accuracy and the final grade.

use vstd::prelude::*;

use crate::judgment::HitJudgment;

verus! {

/// How many judgments of each tier the session has produced so far.
#[derive(Clone, Copy, Debug, PartialEq, Eq, Structural)]
pub struct HitCounts {
    pub perfect: i32,
    pub great: i32,
    pub good: i32,
    pub okay: i32,
    pub miss: i32,
}

impl HitCounts {
    /// Counts never go below zero; every mutation adds.
    pub open spec fn wf(self) -> bool {
        self.perfect >= 0 && self.great >= 0 && self.good >= 0 && self.okay >= 0 && self.miss
            >= 0
    }

    pub open spec fn total_judged_spec(self) -> int {
        self.perfect + self.great + self.good + self.okay + self.miss
    }

    /// Weighted judgment score: each bucket counted at its tier's score.
    pub open spec fn weighted_spec(self) -> int {
        300 * self.perfect + 200 * self.great + 100 * self.good + 50 * self.okay
    }

    /// Accuracy in hundredths of a percent, rounded toward zero:
    /// `weighted / (300 * total) * 100`, or zero when nothing was judged.
    pub open spec fn accuracy_x100_spec(self) -> int {
        if self.total_judged_spec() <= 0 {
            0
        } else {
            (100 * self.weighted_spec()) / (3 * self.total_judged_spec())
        }
    }

    pub fn new() -> (r: HitCounts)
        ensures
            r == (HitCounts { perfect: 0, great: 0, good: 0, okay: 0, miss: 0 }),
    {
        HitCounts { perfect: 0, great: 0, good: 0, okay: 0, miss: 0 }
    }

    /// The bucket matching `tier`, after one more judgment of that tier.
    /// The session invariant keeps every bucket far below `i32::MAX`, so the
    /// casts never truncate where this is applied.
    pub open spec fn bump_spec(self, tier: HitJudgment) -> HitCounts {
        match tier {
            HitJudgment::Perfect => HitCounts { perfect: (self.perfect + 1) as i32, ..self },
            HitJudgment::Great => HitCounts { great: (self.great + 1) as i32, ..self },
            HitJudgment::Good => HitCounts { good: (self.good + 1) as i32, ..self },
            HitJudgment::Okay => HitCounts { okay: (self.okay + 1) as i32, ..self },
            HitJudgment::Miss => HitCounts { miss: (self.miss + 1) as i32, ..self },
        }
    }

    pub fn total_judged(&self) -> (r: i64)
        ensures
            r == self.total_judged_spec(),
    {
        self.perfect as i64 + self.great as i64 + self.good as i64 + self.okay as i64
            + self.miss as i64
    }

    pub fn weighted(&self) -> (r: i64)
        ensures
            r == self.weighted_spec(),
    {
        300 * self.perfect as i64 + 200 * self.great as i64 + 100 * self.good as i64 + 50
            * self.okay as i64
    }

    /// Accuracy in hundredths of a percent (one Perfect and one Miss give
    /// 5000, that is 50.00%).
    pub fn accuracy_x100(&self) -> (r: i64)
        requires
            self.wf(),
        ensures
            r == self.accuracy_x100_spec(),
    {
        let total = self.total_judged();
        if total <= 0 {
            0
        } else {
            (100 * self.weighted()) / (3 * total)
        }
    }

    /// The grade for these counts.
    pub fn grade(&self) -> (r: Grade)
        requires
            self.wf(),
        ensures
            r == grade_spec(*self),
    {
        let t = self.total_judged();
        let w = self.weighted();
        if t <= 0 {
            Grade::D
        } else if w >= 300 * t && self.miss == 0 {
            Grade::SS
        } else if w >= 285 * t && self.miss == 0 {
            Grade::S
        } else if w >= 270 * t {
            Grade::A
        } else if w >= 240 * t {
            Grade::B
        } else if w >= 210 * t {
            Grade::C
        } else {
            Grade::D
        }
    }
}

/// Session grade.  The comparisons in `grade_spec` are the exact integer form
/// of the percentage thresholds: accuracy is `weighted / (3 * total)` percent,
/// so `accuracy >= 95` is `weighted >= 285 * total`, and so on.
#[derive(Clone, Copy, Debug, PartialEq, Eq, Structural)]
pub enum Grade {
    SS,
    S,
    A,
    B,
    C,
    D,
}

/// SS needs full accuracy and no miss; S needs 95% and no miss; A, B, C need
/// 90%, 80%, 70%; anything else, or an empty session, is D.
pub open spec fn grade_spec(c: HitCounts) -> Grade {
    let t = c.total_judged_spec();
    let w = c.weighted_spec();
    if t <= 0 {
        Grade::D
    } else if w >= 300 * t && c.miss == 0 {
        Grade::SS
    } else if w >= 285 * t && c.miss == 0 {
        Grade::S
    } else if w >= 270 * t {
        Grade::A
    } else if w >= 240 * t {
        Grade::B
    } else if w >= 210 * t {
        Grade::C
    } else {
        Grade::D
    }
}

/// For a positive divisor, a quotient clears a bound exactly when the
/// dividend clears the multiplied bound.
proof fn lemma_div_ge_iff(x: int, d: int, k: int)
    requires
        d > 0,
    ensures
        x / d >= k <==> x >= k * d,
{
    vstd::arithmetic::div_mod::lemma_fundamental_div_mod(x, d);
    let q = x / d;
    let r = x % d;
    assert(x == d * q + r);
    assert(0 <= r < d);
    if q >= k {
        assert(d * q >= d * k) by (nonlinear_arith)
            requires
                d > 0,
                q >= k,
        ;
        assert(x >= k * d) by (nonlinear_arith)
            requires
                x == d * q + r,
                r >= 0,
                d * q >= d * k,
        ;
    }
    if x >= k * d {
        assert(d * (q + 1) > x) by (nonlinear_arith)
            requires
                x == d * q + r,
                r < d,
        ;
        assert(q + 1 > k) by (nonlinear_arith)
            requires
                d > 0,
                d * (q + 1) > x,
                x >= k * d,
        ;
    }
}

/// The integer comparisons behind the grade are exactly the percentage
/// thresholds read off the (truncated) accuracy: full accuracy without a
/// miss is SS, 95% without a miss is S, and 90%, 80%, 70% give A, B, C.
pub proof fn lemma_grade_matches_accuracy(c: HitCounts)
    requires
        c.wf(),
        c.total_judged_spec() > 0,
    ensures
        grade_spec(c) == Grade::SS <==> c.accuracy_x100_spec() >= 10000 && c.miss == 0,
        grade_spec(c) == Grade::S <==> c.accuracy_x100_spec() >= 9500 && c.miss == 0
            && !(c.accuracy_x100_spec() >= 10000),
        grade_spec(c) == Grade::A <==> c.accuracy_x100_spec() >= 9000 && !(grade_spec(c)
            == Grade::SS) && !(grade_spec(c) == Grade::S),
        grade_spec(c) == Grade::B <==> 8000 <= c.accuracy_x100_spec() < 9000 && !(grade_spec(c)
            == Grade::SS) && !(grade_spec(c) == Grade::S),
        grade_spec(c) == Grade::C <==> 7000 <= c.accuracy_x100_spec() < 8000,
        grade_spec(c) == Grade::D <==> c.accuracy_x100_spec() < 7000,
{
    let t = c.total_judged_spec();
    let w = c.weighted_spec();
    lemma_div_ge_iff(100 * w, 3 * t, 10000);
    lemma_div_ge_iff(100 * w, 3 * t, 9500);
    lemma_div_ge_iff(100 * w, 3 * t, 9000);
    lemma_div_ge_iff(100 * w, 3 * t, 8000);
    lemma_div_ge_iff(100 * w, 3 * t, 7000);
    assert(10000 * (3 * t) == 300 * t * 100) by (nonlinear_arith);
    assert(9500 * (3 * t) == 285 * t * 100) by (nonlinear_arith);
    assert(9000 * (3 * t) == 270 * t * 100) by (nonlinear_arith);
    assert(8000 * (3 * t) == 240 * t * 100) by (nonlinear_arith);
    assert(7000 * (3 * t) == 210 * t * 100) by (nonlinear_arith);
    assert(100 * w >= 300 * t * 100 <==> w >= 300 * t) by (nonlinear_arith);
    assert(100 * w >= 285 * t * 100 <==> w >= 285 * t) by (nonlinear_arith);
    assert(100 * w >= 270 * t * 100 <==> w >= 270 * t) by (nonlinear_arith);
    assert(100 * w >= 240 * t * 100 <==> w >= 240 * t) by (nonlinear_arith);
    assert(100 * w >= 210 * t * 100 <==> w >= 210 * t) by (nonlinear_arith);
}

impl Grade {
    /// Display label of the grade.
    pub fn text(&self) -> (r: &'static str)
        ensures
            *self == Grade::SS ==> r@ == "SS"@,
            *self == Grade::S ==> r@ == "S"@,
            *self == Grade::A ==> r@ == "A"@,
            *self == Grade::B ==> r@ == "B"@,
            *self == Grade::C ==> r@ == "C"@,
            *self == Grade::D ==> r@ == "D"@,
    {
        match self {
            Grade::SS => "SS",
            Grade::S => "S",
            Grade::A => "A",
            Grade::B => "B",
            Grade::C => "C",
            Grade::D => "D",
        }
    }
}

} // verus!
