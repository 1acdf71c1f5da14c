//! The game session: all state one loaded chart accumulates while it is
//! played, and the invariant that ties score, combo and hit counts to the
//! notes' judgment state.

use vstd::prelude::*;

use crate::judgment::HitJudgment;
use crate::note::Note;
use crate::note::TIME_BOUND_US;
use crate::note::lemma_units_fresh;
use crate::note::total_judged_units;
use crate::note::total_success_units;
use crate::scoring::HitCounts;

verus! {

/// Hard cap on the number of notes one session holds; it keeps every counter
/// far inside `i32` and every score inside `i64`.
pub const NOTE_CAP: usize = 100_000_000;

/// `now` values handed to the engine stay within this bound (microseconds),
/// so offsets from any in-bound note time fit in `i64`.
pub const NOW_BOUND_US: i64 = 1_000_000_000_000_000;

/// Shown right after a session is created, meaning "no judgment yet".
pub const INITIAL_JUDGMENT_TIME_US: i64 = -1_000_000;

/// The mathematical image of a session.
pub ghost struct GameModel {
    pub notes: Seq<Note>,
    pub score: int,
    pub combo: int,
    pub hit_counts: HitCounts,
    pub last_judgment: Option<HitJudgment>,
    pub judgment_time: int,
    pub last_input_delay: int,
    pub song_finished: bool,
    pub key_count: int,
    pub song_duration: int,
}

impl GameModel {
    /// The session invariant.  Score equals the weighted sum of the hit
    /// counts, the hit counts total exactly the judgments the notes have
    /// produced, and the combo never exceeds the non-miss judgments.
    pub open spec fn wf(self) -> bool {
        &&& self.notes.len() <= NOTE_CAP
        &&& forall|i: int|
            0 <= i < self.notes.len() ==> (#[trigger] self.notes[i]).wf(self.key_count)
        &&& forall|i: int| 0 <= i < self.notes.len() ==> (#[trigger] self.notes[i]).consistent()
        &&& self.hit_counts.wf()
        &&& self.hit_counts.total_judged_spec() == total_judged_units(self.notes)
        &&& self.score == self.hit_counts.weighted_spec()
        &&& 0 <= self.combo <= total_success_units(self.notes)
        &&& 1 <= self.key_count
        &&& 0 <= self.song_duration <= TIME_BOUND_US
    }
}

/// One playing (or finished) session of one chart.
pub struct GameState {
    pub notes: Vec<Note>,
    pub score: i64,
    pub combo: i32,
    pub hit_counts: HitCounts,
    /// Tier of the most recent judgment, for display.
    pub last_judgment: Option<HitJudgment>,
    /// When the most recent judgment happened (microseconds).
    pub judgment_time_us: i64,
    /// Signed offset of the most recent press or release (microseconds).
    pub last_input_delay_us: i64,
    pub song_finished: bool,
    pub key_count: usize,
    /// Length of the song's audio (microseconds); the session ends a little
    /// after this time is reached.
    pub song_duration_us: i64,
}

impl View for GameState {
    type V = GameModel;

    open spec fn view(&self) -> GameModel {
        GameModel {
            notes: self.notes@,
            score: self.score as int,
            combo: self.combo as int,
            hit_counts: self.hit_counts,
            last_judgment: self.last_judgment,
            judgment_time: self.judgment_time_us as int,
            last_input_delay: self.last_input_delay_us as int,
            song_finished: self.song_finished,
            key_count: self.key_count as int,
            song_duration: self.song_duration_us as int,
        }
    }
}

impl GameState {
    pub open spec fn wf(self) -> bool {
        self@.wf()
    }

    /// A fresh session over freshly parsed notes: nothing judged, nothing
    /// scored, the clock not yet started.
    pub fn new(notes: Vec<Note>, key_count: usize, song_duration_us: i64) -> (r: GameState)
        requires
            notes@.len() <= NOTE_CAP,
            forall|i: int| 0 <= i < notes@.len() ==> (#[trigger] notes@[i]).wf(key_count as int),
            forall|i: int| 0 <= i < notes@.len() ==> (#[trigger] notes@[i]).fresh(),
            1 <= key_count,
            0 <= song_duration_us <= TIME_BOUND_US,
        ensures
            r.wf(),
            r@ == (GameModel {
                notes: notes@,
                score: 0,
                combo: 0,
                hit_counts: HitCounts { perfect: 0, great: 0, good: 0, okay: 0, miss: 0 },
                last_judgment: None,
                judgment_time: INITIAL_JUDGMENT_TIME_US as int,
                last_input_delay: 0,
                song_finished: false,
                key_count: key_count as int,
                song_duration: song_duration_us as int,
            }),
    {
        proof {
            lemma_units_fresh(notes@);
            assert forall|i: int| 0 <= i < notes@.len() implies (
            #[trigger] notes@[i]).consistent() by {
                assert(notes@[i].fresh());
            }
        }
        GameState {
            notes,
            score: 0,
            combo: 0,
            hit_counts: HitCounts::new(),
            last_judgment: None,
            judgment_time_us: INITIAL_JUDGMENT_TIME_US,
            last_input_delay_us: 0,
            song_finished: false,
            key_count,
            song_duration_us,
        }
    }
}

} // verus!
