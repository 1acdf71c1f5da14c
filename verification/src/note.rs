//! Notes: the playable objects of a chart, with their mutable judgment state.

use vstd::prelude::*;

use crate::judgment::HitJudgment;
use crate::judgment::OK_WINDOW_US;

verus! {

/// A hold shorter than this many microseconds plays as a tap note.
pub const MIN_LN_DURATION_US: i64 = 150_000;

/// All chart timestamps the parser emits stay within this bound
/// (microseconds), so timing differences never overflow `i64`.
pub const TIME_BOUND_US: i64 = 100_000_000_000_000;

/// One playable object.  `start_time` and `end_time` are microseconds from
/// the start of the song; a tap note has `end_time == start_time`.
#[derive(Clone, Copy, Debug)]
pub struct Note {
    pub start_time: i64,
    pub end_time: i64,
    pub lane: usize,
    /// Tap state: terminal once `hit` or `missed` is set.
    pub hit: bool,
    pub missed: bool,
    /// Long-note state: `is_ln` is fixed at parse time, the rest moves
    /// through `pending -> head hit -> completed or hold broken`.
    pub is_ln: bool,
    pub ln_head_hit: bool,
    pub ln_hold_broken: bool,
    pub ln_completed: bool,
    pub ln_head_judgment: Option<HitJudgment>,
    pub ln_tail_judgment: Option<HitJudgment>,
    /// Whether the looping hold sound for this note is currently running.
    pub slider_sound_playing: bool,
}

pub open spec fn abs(x: int) -> int {
    if x < 0 {
        -x
    } else {
        x
    }
}

impl Note {
    /// Structural validity: the lane exists, times are bounded and ordered,
    /// and `is_ln` agrees with the hold duration.
    pub open spec fn wf(self, key_count: int) -> bool {
        &&& 0 <= self.lane < key_count
        &&& -TIME_BOUND_US <= self.start_time <= self.end_time <= TIME_BOUND_US
        &&& self.is_ln == (self.end_time - self.start_time >= MIN_LN_DURATION_US)
    }

    /// A note as the parser delivers it: no judgment has happened yet.
    pub open spec fn fresh(self) -> bool {
        &&& !self.hit
        &&& !self.missed
        &&& !self.ln_head_hit
        &&& !self.ln_hold_broken
        &&& !self.ln_completed
        &&& self.ln_head_judgment is None
        &&& self.ln_tail_judgment is None
        &&& !self.slider_sound_playing
    }

    /// A note with the given shape and no judgment state.
    pub fn new(lane: usize, start_time: i64, end_time: i64, is_ln: bool) -> (r: Note)
        ensures
            r.lane == lane && r.start_time == start_time && r.end_time == end_time && r.is_ln
                == is_ln,
            r.fresh(),
    {
        Note {
            start_time,
            end_time,
            lane,
            hit: false,
            missed: false,
            is_ln,
            ln_head_hit: false,
            ln_hold_broken: false,
            ln_completed: false,
            ln_head_judgment: None,
            ln_tail_judgment: None,
            slider_sound_playing: false,
        }
    }

    /// How far the head is from `now`, in microseconds.
    pub open spec fn head_offset(self, now: int) -> int {
        abs(self.start_time - now)
    }

    /// How far the tail is from `now`, in microseconds.
    pub open spec fn tail_offset(self, now: int) -> int {
        abs(self.end_time - now)
    }

    /// A press in `lane` at `now` may answer this note: the note still waits
    /// for its first judgment and its head is strictly inside the window.
    pub open spec fn press_eligible(self, lane: int, now: int) -> bool {
        &&& self.lane == lane
        &&& if self.is_ln {
            !self.ln_head_hit && !self.missed
        } else {
            !self.hit && !self.missed
        }
        &&& self.head_offset(now) < OK_WINDOW_US
    }

    /// A release in `lane` at `now` may complete this long note.
    pub open spec fn release_eligible(self, lane: int, now: int) -> bool {
        &&& self.lane == lane
        &&& self.is_ln
        &&& self.ln_head_hit
        &&& !self.ln_completed
        &&& !self.ln_hold_broken
        &&& self.tail_offset(now) < OK_WINDOW_US
    }

    /// The hold phase of this note is running at `now` and still healthy.
    pub open spec fn holding_phase(self, now: int) -> bool {
        &&& self.is_ln
        &&& self.ln_head_hit
        &&& !self.ln_completed
        &&& !self.ln_hold_broken
        &&& self.start_time <= now < self.end_time
    }

    /// The head of this long note can no longer be hit at `now`.
    pub open spec fn head_miss_due(self, now: int) -> bool {
        &&& !self.missed
        &&& self.is_ln
        &&& !self.ln_head_hit
        &&& self.start_time - now < -OK_WINDOW_US
    }

    /// The head was hit but the tail was never released in time.
    pub open spec fn tail_miss_due(self, now: int) -> bool {
        &&& !self.missed
        &&& self.is_ln
        &&& self.ln_head_hit
        &&& !self.ln_completed
        &&& self.end_time - now < -OK_WINDOW_US
    }

    /// A tap note that can no longer be hit at `now`.
    pub open spec fn tap_miss_due(self, now: int) -> bool {
        &&& !self.missed
        &&& !self.is_ln
        &&& !self.hit
        &&& self.start_time - now < -OK_WINDOW_US
    }

    /// Whether the looping hold sound should be running at `now`.
    pub open spec fn loop_desired(self, now: int) -> bool {
        &&& self.is_ln
        &&& self.ln_head_hit
        &&& !self.ln_completed
        &&& !self.ln_hold_broken
        &&& self.start_time <= now < self.end_time
    }

    /// The one-terminal-path invariant of the judgment state machine.  A tap
    /// note resolves to hit or missed; a long note resolves through
    /// `head missed`, `head hit -> completed` or `head hit -> hold broken`,
    /// and judgment slots are filled exactly when the matching stage is done.
    pub open spec fn consistent(self) -> bool {
        if self.is_ln {
            &&& (self.ln_head_judgment is Some <==> (self.ln_head_hit || self.missed))
            &&& (self.ln_tail_judgment is Some <==> self.ln_completed)
            &&& (self.ln_hold_broken ==> self.ln_completed && self.ln_head_hit)
            &&& (self.ln_completed && !self.ln_head_hit ==> self.missed)
        } else {
            &&& !(self.hit && self.missed)
            &&& self.ln_head_judgment is None
            &&& self.ln_tail_judgment is None
            &&& !self.ln_head_hit
            &&& !self.ln_hold_broken
            &&& !self.ln_completed
        }
    }

    /// Judgments this note has produced so far (a long note can produce two).
    pub open spec fn judged_units(self) -> int {
        if self.is_ln {
            (if self.ln_head_judgment is Some {
                1int
            } else {
                0int
            }) + (if self.ln_tail_judgment is Some {
                1int
            } else {
                0int
            })
        } else {
            if self.hit || self.missed {
                1
            } else {
                0
            }
        }
    }

    /// Non-miss judgments this note has produced so far; the combo counter
    /// never exceeds their total.
    pub open spec fn success_units(self) -> int {
        if self.is_ln {
            (if self.ln_head_judgment matches Some(j) && j != HitJudgment::Miss {
                1int
            } else {
                0int
            }) + (if self.ln_tail_judgment matches Some(j) && j != HitJudgment::Miss {
                1int
            } else {
                0int
            })
        } else {
            if self.hit {
                1
            } else {
                0
            }
        }
    }
}

/// Total judgments produced by a note sequence.
pub open spec fn total_judged_units(s: Seq<Note>) -> int
    decreases s.len(),
{
    if s.len() == 0 {
        0
    } else {
        total_judged_units(s.drop_last()) + s.last().judged_units()
    }
}

/// Total non-miss judgments produced by a note sequence.
pub open spec fn total_success_units(s: Seq<Note>) -> int
    decreases s.len(),
{
    if s.len() == 0 {
        0
    } else {
        total_success_units(s.drop_last()) + s.last().success_units()
    }
}

/// Both unit counts lie between 0 and twice the number of notes.
pub proof fn lemma_units_bounds(s: Seq<Note>)
    ensures
        0 <= total_judged_units(s) <= 2 * s.len(),
        0 <= total_success_units(s) <= 2 * s.len(),
    decreases s.len(),
{
    if s.len() > 0 {
        lemma_units_bounds(s.drop_last());
    }
}

/// A sequence of untouched notes has produced no judgments.
pub proof fn lemma_units_fresh(s: Seq<Note>)
    requires
        forall|i: int| 0 <= i < s.len() ==> s[i].fresh(),
    ensures
        total_judged_units(s) == 0,
        total_success_units(s) == 0,
    decreases s.len(),
{
    if s.len() > 0 {
        lemma_units_fresh(s.drop_last());
    }
}

/// Updating one note moves the unit totals by exactly that note's change.
pub proof fn lemma_units_update(s: Seq<Note>, i: int, n: Note)
    requires
        0 <= i < s.len(),
    ensures
        total_judged_units(s.update(i, n)) == total_judged_units(s) + n.judged_units()
            - s[i].judged_units(),
        total_success_units(s.update(i, n)) == total_success_units(s) + n.success_units()
            - s[i].success_units(),
    decreases s.len(),
{
    let t = s.update(i, n);
    if i == s.len() - 1 {
        assert(t.drop_last() =~= s.drop_last());
    } else {
        assert(t.drop_last() =~= s.drop_last().update(i, n));
        assert(t.last() == s.last());
        lemma_units_update(s.drop_last(), i, n);
    }
}

} // verus!
