//! The per-frame judgment engine: presses, releases, hold integrity, the
//! hold-sound diff and the missed-note sweep, each given an exact model.

use vstd::prelude::*;

use crate::judgment::HitJudgment;
use crate::judgment::OK_WINDOW_US;
use crate::note::Note;
use crate::note::total_judged_units;
use crate::note::total_success_units;
use crate::scoring::HitCounts;
use crate::session::GameModel;
use crate::session::GameState;
use crate::session::NOW_BOUND_US;

verus! {

/// A command for the audio collaborator.  The engine only decides; playing
/// is the caller's business and never reports back.
#[derive(Clone, Copy, Debug, PartialEq, Eq, Structural)]
pub enum AudioCommand {
    /// Play the one-shot hit sound.
    PlayHit,
    /// Start the looping hold sound for a lane.
    StartLoop { lane: usize },
    /// Stop the looping hold sound for a lane.
    StopLoop { lane: usize },
    /// Stop every looping hold sound.
    StopAll,
}

// ---------------------------------------------------------------------------
// Missed-note sweep
// ---------------------------------------------------------------------------
/// One note after the missed-note sweep at `now`.
pub open spec fn note_after_miss_sweep(n: Note, now: int) -> Note {
    if n.head_miss_due(now) {
        Note {
            missed: true,
            ln_completed: true,
            ln_head_judgment: Some(HitJudgment::Miss),
            ln_tail_judgment: Some(HitJudgment::Miss),
            ..n
        }
    } else if n.tail_miss_due(now) {
        Note { missed: true, ln_completed: true, ln_tail_judgment: Some(HitJudgment::Miss), ..n }
    } else if n.tap_miss_due(now) {
        Note { missed: true, ..n }
    } else {
        n
    }
}

/// Misses the sweep charges for one note: a forfeited long note loses head
/// and tail at once.
pub open spec fn miss_units(n: Note, now: int) -> int {
    if n.head_miss_due(now) {
        2
    } else if n.tail_miss_due(now) {
        1
    } else if n.tap_miss_due(now) {
        1
    } else {
        0
    }
}

pub open spec fn sweep_notes(s: Seq<Note>, now: int) -> Seq<Note> {
    Seq::new(s.len(), |i: int| note_after_miss_sweep(s[i], now))
}

pub open spec fn sweep_miss_count(s: Seq<Note>, now: int) -> int
    decreases s.len(),
{
    if s.len() == 0 {
        0
    } else {
        sweep_miss_count(s.drop_last(), now) + miss_units(s.last(), now)
    }
}

pub proof fn lemma_sweep_count_bounds(s: Seq<Note>, now: int)
    ensures
        0 <= sweep_miss_count(s, now) <= 2 * s.len(),
    decreases s.len(),
{
    if s.len() > 0 {
        lemma_sweep_count_bounds(s.drop_last(), now);
    }
}

/// Prefix sums of the sweep count never exceed the whole.
pub proof fn lemma_sweep_count_take_monotone(s: Seq<Note>, now: int, i: int)
    requires
        0 <= i <= s.len(),
    ensures
        sweep_miss_count(s.take(i), now) <= sweep_miss_count(s, now),
    decreases s.len() - i,
{
    if i == s.len() {
        assert(s.take(i) =~= s);
    } else {
        lemma_sweep_count_take_monotone(s, now, i + 1);
        assert(s.take(i + 1).drop_last() =~= s.take(i));
        assert(miss_units(s.take(i + 1).last(), now) >= 0);
    }
}

/// The sweep adds exactly its charged misses to the judged units and never
/// adds a successful judgment.
pub proof fn lemma_sweep_units(s: Seq<Note>, now: int)
    requires
        forall|i: int| 0 <= i < s.len() ==> (#[trigger] s[i]).consistent(),
    ensures
        total_judged_units(sweep_notes(s, now)) == total_judged_units(s) + sweep_miss_count(
            s,
            now,
        ),
        total_success_units(sweep_notes(s, now)) == total_success_units(s),
    decreases s.len(),
{
    if s.len() > 0 {
        assert(sweep_notes(s, now).drop_last() =~= sweep_notes(s.drop_last(), now));
        lemma_sweep_units(s.drop_last(), now);
        assert(sweep_notes(s, now).last() == note_after_miss_sweep(s.last(), now));
        assert(s.last().consistent());
    }
}

/// The whole session after the missed-note sweep: every overdue note is
/// resolved as missed, the miss bucket grows by the charged units, and any
/// new miss resets the combo and shows as the latest judgment.
pub open spec fn miss_sweep_model(m: GameModel, now: int) -> GameModel {
    let k = sweep_miss_count(m.notes, now);
    GameModel {
        notes: sweep_notes(m.notes, now),
        combo: if k > 0 {
            0
        } else {
            m.combo
        },
        hit_counts: HitCounts { miss: (m.hit_counts.miss + k) as i32, ..m.hit_counts },
        last_judgment: if k > 0 {
            Some(HitJudgment::Miss)
        } else {
            m.last_judgment
        },
        judgment_time: if k > 0 {
            now
        } else {
            m.judgment_time
        },
        ..m
    }
}

impl GameState {
    /// Resolve every note whose window has passed: an unpressed tap or an
    /// unpressed long-note head more than the window late becomes a miss (a
    /// long note forfeits head and tail at once); a hit head whose tail was
    /// never released in time forfeits the tail.
    pub fn check_missed_notes(&mut self, now: i64)
        requires
            old(self).wf(),
            -NOW_BOUND_US <= now <= NOW_BOUND_US,
        ensures
            final(self).wf(),
            final(self)@ == miss_sweep_model(old(self)@, now as int),
    {
        let ghost m0 = old(self)@;
        let ghost nowg: int = now as int;
        let ghost s0 = m0.notes;
        proof {
            lemma_sweep_count_bounds(s0, nowg);
        }
        let mut idx: usize = 0;
        while idx < self.notes.len()
            invariant
                old(self).wf(),
                -NOW_BOUND_US <= now <= NOW_BOUND_US,
                nowg == now as int,
                m0 == old(self)@,
                s0 == m0.notes,
                0 <= idx <= self.notes@.len(),
                self.notes@.len() == s0.len(),
                forall|j: int| idx <= j < s0.len() ==> self.notes@[j] == s0[j],
                forall|j: int|
                    0 <= j < idx ==> self.notes@[j] == note_after_miss_sweep(s0[j], nowg),
                self.score == m0.score,
                self.key_count == m0.key_count,
                self.song_duration_us == m0.song_duration,
                self.song_finished == m0.song_finished,
                self.last_input_delay_us == m0.last_input_delay,
                0 <= sweep_miss_count(s0.take(idx as int), nowg) <= sweep_miss_count(s0, nowg),
                self.hit_counts == (HitCounts {
                    miss: (m0.hit_counts.miss + sweep_miss_count(s0.take(idx as int), nowg)) as i32,
                    ..m0.hit_counts
                }),
                self.combo == if sweep_miss_count(s0.take(idx as int), nowg) > 0 {
                    0int
                } else {
                    m0.combo
                },
                self.last_judgment == if sweep_miss_count(s0.take(idx as int), nowg) > 0 {
                    Some(HitJudgment::Miss)
                } else {
                    m0.last_judgment
                },
                self.judgment_time_us as int == if sweep_miss_count(s0.take(idx as int), nowg) > 0 {
                    nowg
                } else {
                    m0.judgment_time
                },
            decreases self.notes@.len() - idx,
        {
            let ghost pre = sweep_miss_count(s0.take(idx as int), nowg);
            proof {
                assert(s0.take(idx as int + 1).drop_last() =~= s0.take(idx as int));
                assert(s0.take(idx as int + 1).last() == s0[idx as int]);
                lemma_sweep_count_bounds(s0.take(idx as int + 1), nowg);
                lemma_sweep_count_take_monotone(s0, nowg, idx as int + 1);
                assert(m0.hit_counts.total_judged_spec() <= 2 * s0.len()) by {
                    crate::note::lemma_units_bounds(s0);
                }
            }
            let n = self.notes[idx];
            proof {
                assert(n == s0[idx as int]);
                assert(n.wf(m0.key_count));
            }
            if !n.missed {
                if n.is_ln {
                    if !n.ln_head_hit && n.start_time - now < -OK_WINDOW_US {
                        let mut u = n;
                        u.missed = true;
                        u.ln_completed = true;
                        u.ln_head_judgment = Some(HitJudgment::Miss);
                        u.ln_tail_judgment = Some(HitJudgment::Miss);
                        self.notes[idx] = u;
                        self.combo = 0;
                        self.last_judgment = Some(HitJudgment::Miss);
                        self.judgment_time_us = now;
                        self.hit_counts.miss = self.hit_counts.miss + 2;
                    } else if n.ln_head_hit && !n.ln_completed && n.end_time - now
                        < -OK_WINDOW_US {
                        let mut u = n;
                        u.missed = true;
                        u.ln_completed = true;
                        u.ln_tail_judgment = Some(HitJudgment::Miss);
                        self.notes[idx] = u;
                        self.combo = 0;
                        self.last_judgment = Some(HitJudgment::Miss);
                        self.judgment_time_us = now;
                        self.hit_counts.miss = self.hit_counts.miss + 1;
                    }
                } else if !n.hit && n.start_time - now < -OK_WINDOW_US {
                    let mut u = n;
                    u.missed = true;
                    self.notes[idx] = u;
                    self.combo = 0;
                    self.last_judgment = Some(HitJudgment::Miss);
                    self.judgment_time_us = now;
                    self.hit_counts.miss = self.hit_counts.miss + 1;
                }
            }
            proof {
                assert(self.notes@[idx as int] == note_after_miss_sweep(s0[idx as int], nowg));
                assert(sweep_miss_count(s0.take(idx as int + 1), nowg) == pre + miss_units(
                    s0[idx as int],
                    nowg,
                ));
            }
            idx = idx + 1;
        }
        proof {
            assert(s0.take(s0.len() as int) =~= s0);
            assert(self.notes@ =~= sweep_notes(s0, nowg));
            lemma_sweep_units(s0, nowg);
            crate::note::lemma_units_bounds(s0);
            assert(self@ == miss_sweep_model(m0, nowg));
            assert forall|i: int| 0 <= i < self.notes@.len() implies (
            #[trigger] self.notes@[i]).wf(self@.key_count) && self.notes@[i].consistent() by {
                assert(s0[i].wf(m0.key_count) && s0[i].consistent());
                assert(self.notes@[i] == note_after_miss_sweep(s0[i], nowg));
            }
        }
    }
}

// ---------------------------------------------------------------------------
// Hold-integrity check
// ---------------------------------------------------------------------------
/// One note after the hold-integrity check for `lane` at `now`: a long note
/// in its hold phase whose lane key is not held breaks.
pub open spec fn note_after_hold_check(n: Note, lane: int, holding: bool, now: int) -> Note {
    if n.lane == lane && n.holding_phase(now) && !holding {
        Note {
            ln_hold_broken: true,
            ln_completed: true,
            ln_tail_judgment: Some(HitJudgment::Miss),
            ..n
        }
    } else {
        n
    }
}

pub open spec fn hold_break_units(n: Note, lane: int, holding: bool, now: int) -> int {
    if n.lane == lane && n.holding_phase(now) && !holding {
        1
    } else {
        0
    }
}

pub open spec fn hold_checked_notes(s: Seq<Note>, lane: int, holding: bool, now: int) -> Seq<
    Note,
> {
    Seq::new(s.len(), |i: int| note_after_hold_check(s[i], lane, holding, now))
}

pub open spec fn hold_break_count(s: Seq<Note>, lane: int, holding: bool, now: int) -> int
    decreases s.len(),
{
    if s.len() == 0 {
        0
    } else {
        hold_break_count(s.drop_last(), lane, holding, now) + hold_break_units(
            s.last(),
            lane,
            holding,
            now,
        )
    }
}

pub proof fn lemma_hold_count_bounds(s: Seq<Note>, lane: int, holding: bool, now: int)
    ensures
        0 <= hold_break_count(s, lane, holding, now) <= s.len(),
    decreases s.len(),
{
    if s.len() > 0 {
        lemma_hold_count_bounds(s.drop_last(), lane, holding, now);
    }
}

pub proof fn lemma_hold_count_take_monotone(s: Seq<Note>, lane: int, holding: bool, now: int, i: int)
    requires
        0 <= i <= s.len(),
    ensures
        hold_break_count(s.take(i), lane, holding, now) <= hold_break_count(s, lane, holding, now),
    decreases s.len() - i,
{
    if i == s.len() {
        assert(s.take(i) =~= s);
    } else {
        lemma_hold_count_take_monotone(s, lane, holding, now, i + 1);
        assert(s.take(i + 1).drop_last() =~= s.take(i));
        assert(hold_break_units(s.take(i + 1).last(), lane, holding, now) >= 0);
    }
}

/// Every valid position contributes at least its own units to the count.
pub proof fn lemma_hold_count_at_least(s: Seq<Note>, lane: int, holding: bool, now: int, i: int)
    requires
        0 <= i < s.len(),
    ensures
        hold_break_count(s, lane, holding, now) >= hold_break_units(s[i], lane, holding, now),
    decreases s.len(),
{
    lemma_hold_count_bounds(s, lane, holding, now);
    if i == s.len() - 1 {
        lemma_hold_count_bounds(s.drop_last(), lane, holding, now);
    } else {
        lemma_hold_count_at_least(s.drop_last(), lane, holding, now, i);
    }
}

/// Breaking holds adds exactly the broken tails to the judged units and no
/// successful judgment.
pub proof fn lemma_hold_units(s: Seq<Note>, lane: int, holding: bool, now: int)
    requires
        forall|i: int| 0 <= i < s.len() ==> (#[trigger] s[i]).consistent(),
    ensures
        total_judged_units(hold_checked_notes(s, lane, holding, now)) == total_judged_units(s)
            + hold_break_count(s, lane, holding, now),
        total_success_units(hold_checked_notes(s, lane, holding, now)) == total_success_units(s),
    decreases s.len(),
{
    if s.len() > 0 {
        assert(hold_checked_notes(s, lane, holding, now).drop_last() =~= hold_checked_notes(
            s.drop_last(),
            lane,
            holding,
            now,
        ));
        lemma_hold_units(s.drop_last(), lane, holding, now);
        assert(s.last().consistent());
    }
}

/// The whole session after the hold-integrity check for one lane.
pub open spec fn hold_check_model(m: GameModel, lane: int, holding: bool, now: int) -> GameModel {
    let k = hold_break_count(m.notes, lane, holding, now);
    GameModel {
        notes: hold_checked_notes(m.notes, lane, holding, now),
        combo: if k > 0 {
            0
        } else {
            m.combo
        },
        hit_counts: HitCounts { miss: (m.hit_counts.miss + k) as i32, ..m.hit_counts },
        last_judgment: if k > 0 {
            Some(HitJudgment::Miss)
        } else {
            m.last_judgment
        },
        judgment_time: if k > 0 {
            now
        } else {
            m.judgment_time
        },
        ..m
    }
}

impl GameState {
    /// Break every long note in `lane` that is inside its hold phase while
    /// the lane key is up: the tail is forfeited as a miss and the combo
    /// resets.  A broken note never re-enters holding.
    pub fn check_ln_hold_integrity(&mut self, lane: usize, is_holding: bool, now: i64)
        requires
            old(self).wf(),
            -NOW_BOUND_US <= now <= NOW_BOUND_US,
        ensures
            final(self).wf(),
            final(self)@ == hold_check_model(old(self)@, lane as int, is_holding, now as int),
    {
        let ghost m0 = old(self)@;
        let ghost nowg: int = now as int;
        let ghost laneg: int = lane as int;
        let ghost s0 = m0.notes;
        proof {
            lemma_hold_count_bounds(s0, laneg, is_holding, nowg);
        }
        let mut idx: usize = 0;
        while idx < self.notes.len()
            invariant
                old(self).wf(),
                -NOW_BOUND_US <= now <= NOW_BOUND_US,
                nowg == now as int,
                laneg == lane as int,
                m0 == old(self)@,
                s0 == m0.notes,
                0 <= idx <= self.notes@.len(),
                self.notes@.len() == s0.len(),
                forall|j: int| idx <= j < s0.len() ==> self.notes@[j] == s0[j],
                forall|j: int|
                    0 <= j < idx ==> self.notes@[j] == note_after_hold_check(
                        s0[j],
                        laneg,
                        is_holding,
                        nowg,
                    ),
                self.score == m0.score,
                self.key_count == m0.key_count,
                self.song_duration_us == m0.song_duration,
                self.song_finished == m0.song_finished,
                self.last_input_delay_us == m0.last_input_delay,
                0 <= hold_break_count(s0.take(idx as int), laneg, is_holding, nowg)
                    <= hold_break_count(s0, laneg, is_holding, nowg),
                self.hit_counts == (HitCounts {
                    miss: (m0.hit_counts.miss + hold_break_count(
                        s0.take(idx as int),
                        laneg,
                        is_holding,
                        nowg,
                    )) as i32,
                    ..m0.hit_counts
                }),
                self.combo == if hold_break_count(s0.take(idx as int), laneg, is_holding, nowg)
                    > 0 {
                    0int
                } else {
                    m0.combo
                },
                self.last_judgment == if hold_break_count(
                    s0.take(idx as int),
                    laneg,
                    is_holding,
                    nowg,
                ) > 0 {
                    Some(HitJudgment::Miss)
                } else {
                    m0.last_judgment
                },
                self.judgment_time_us as int == if hold_break_count(
                    s0.take(idx as int),
                    laneg,
                    is_holding,
                    nowg,
                ) > 0 {
                    nowg
                } else {
                    m0.judgment_time
                },
            decreases self.notes@.len() - idx,
        {
            let ghost pre = hold_break_count(s0.take(idx as int), laneg, is_holding, nowg);
            proof {
                assert(s0.take(idx as int + 1).drop_last() =~= s0.take(idx as int));
                assert(s0.take(idx as int + 1).last() == s0[idx as int]);
                lemma_hold_count_bounds(s0.take(idx as int + 1), laneg, is_holding, nowg);
                lemma_hold_count_take_monotone(s0, laneg, is_holding, nowg, idx as int + 1);
                assert(m0.hit_counts.total_judged_spec() <= 2 * s0.len()) by {
                    crate::note::lemma_units_bounds(s0);
                }
            }
            let n = self.notes[idx];
            proof {
                assert(n == s0[idx as int]);
                assert(n.wf(m0.key_count));
            }
            if n.lane == lane && n.is_ln && n.ln_head_hit && !n.ln_completed && !n.ln_hold_broken
                && now >= n.start_time && now < n.end_time && !is_holding {
                let mut u = n;
                u.ln_hold_broken = true;
                u.ln_completed = true;
                u.ln_tail_judgment = Some(HitJudgment::Miss);
                self.notes[idx] = u;
                self.combo = 0;
                self.last_judgment = Some(HitJudgment::Miss);
                self.judgment_time_us = now;
                self.hit_counts.miss = self.hit_counts.miss + 1;
            }
            proof {
                assert(self.notes@[idx as int] == note_after_hold_check(
                    s0[idx as int],
                    laneg,
                    is_holding,
                    nowg,
                ));
                assert(hold_break_count(s0.take(idx as int + 1), laneg, is_holding, nowg) == pre
                    + hold_break_units(s0[idx as int], laneg, is_holding, nowg));
            }
            idx = idx + 1;
        }
        proof {
            assert(s0.take(s0.len() as int) =~= s0);
            assert(self.notes@ =~= hold_checked_notes(s0, laneg, is_holding, nowg));
            lemma_hold_units(s0, laneg, is_holding, nowg);
            crate::note::lemma_units_bounds(s0);
            assert(self@ == hold_check_model(m0, laneg, is_holding, nowg));
            assert forall|i: int| 0 <= i < self.notes@.len() implies (
            #[trigger] self.notes@[i]).wf(self@.key_count) && self.notes@[i].consistent() by {
                assert(s0[i].wf(m0.key_count) && s0[i].consistent());
                assert(self.notes@[i] == note_after_hold_check(s0[i], laneg, is_holding, nowg));
            }
        }
    }
}

// ---------------------------------------------------------------------------
// Hold-sound sync
// ---------------------------------------------------------------------------
/// One note after the hold-sound diff: the playing flag becomes exactly
/// the desired state, on while the hold is healthy and inside its time
/// window and off otherwise.
pub open spec fn note_after_sync(n: Note, now: int) -> Note {
    if !n.is_ln {
        n
    } else if n.loop_desired(now) {
        Note { slider_sound_playing: true, ..n }
    } else {
        Note { slider_sound_playing: false, ..n }
    }
}

/// The commands the diff emits for one note: a start where the loop is
/// desired but silent, a stop where it runs undesired.
pub open spec fn sync_note_cmds(n: Note, now: int) -> Seq<AudioCommand> {
    if !n.is_ln {
        Seq::empty()
    } else if n.loop_desired(now) {
        if !n.slider_sound_playing {
            seq![AudioCommand::StartLoop { lane: n.lane }]
        } else {
            Seq::empty()
        }
    } else {
        if n.slider_sound_playing {
            seq![AudioCommand::StopLoop { lane: n.lane }]
        } else {
            Seq::empty()
        }
    }
}

pub open spec fn synced_notes(s: Seq<Note>, now: int) -> Seq<Note> {
    Seq::new(s.len(), |i: int| note_after_sync(s[i], now))
}

pub open spec fn sync_cmds(s: Seq<Note>, now: int) -> Seq<AudioCommand>
    decreases s.len(),
{
    if s.len() == 0 {
        Seq::empty()
    } else {
        sync_cmds(s.drop_last(), now) + sync_note_cmds(s.last(), now)
    }
}

/// The diff touches only the playing flags: no judgment moves.
pub proof fn lemma_sync_units(s: Seq<Note>, now: int)
    ensures
        total_judged_units(synced_notes(s, now)) == total_judged_units(s),
        total_success_units(synced_notes(s, now)) == total_success_units(s),
    decreases s.len(),
{
    if s.len() > 0 {
        assert(synced_notes(s, now).drop_last() =~= synced_notes(s.drop_last(), now));
        lemma_sync_units(s.drop_last(), now);
    }
}

/// The whole session after the hold-sound diff: only playing flags change.
pub open spec fn sync_model(m: GameModel, now: int) -> GameModel {
    GameModel { notes: synced_notes(m.notes, now), ..m }
}

/// After the diff, every long note's loop runs exactly when it is desired:
/// while the hold is healthy and the clock is inside its time window.
pub proof fn lemma_sync_flag_is_desired(s: Seq<Note>, now: int, i: int)
    requires
        0 <= i < s.len(),
        s[i].is_ln,
    ensures
        synced_notes(s, now)[i].slider_sound_playing == s[i].loop_desired(now),
{
}

impl GameState {
    /// Start or stop the looping hold sound of each long note so that it
    /// runs exactly while the hold is healthy and inside its time window;
    /// the emitted commands are appended to `cmds`.
    pub fn sync_slider_sounds(&mut self, now: i64, cmds: &mut Vec<AudioCommand>)
        requires
            old(self).wf(),
            -NOW_BOUND_US <= now <= NOW_BOUND_US,
        ensures
            final(self).wf(),
            final(self)@ == sync_model(old(self)@, now as int),
            final(cmds)@ == old(cmds)@ + sync_cmds(old(self)@.notes, now as int),
    {
        let ghost m0 = old(self)@;
        let ghost nowg: int = now as int;
        let ghost s0 = m0.notes;
        let ghost c0 = old(cmds)@;
        let mut idx: usize = 0;
        while idx < self.notes.len()
            invariant
                old(self).wf(),
                -NOW_BOUND_US <= now <= NOW_BOUND_US,
                nowg == now as int,
                m0 == old(self)@,
                s0 == m0.notes,
                c0 == old(cmds)@,
                0 <= idx <= self.notes@.len(),
                self.notes@.len() == s0.len(),
                forall|j: int| idx <= j < s0.len() ==> self.notes@[j] == s0[j],
                forall|j: int| 0 <= j < idx ==> self.notes@[j] == note_after_sync(s0[j], nowg),
                cmds@ == c0 + sync_cmds(s0.take(idx as int), nowg),
                self.score == m0.score,
                self.combo == m0.combo,
                self.hit_counts == m0.hit_counts,
                self.last_judgment == m0.last_judgment,
                self.judgment_time_us == m0.judgment_time,
                self.key_count == m0.key_count,
                self.song_duration_us == m0.song_duration,
                self.song_finished == m0.song_finished,
                self.last_input_delay_us == m0.last_input_delay,
            decreases self.notes@.len() - idx,
        {
            proof {
                assert(s0.take(idx as int + 1).drop_last() =~= s0.take(idx as int));
                assert(s0.take(idx as int + 1).last() == s0[idx as int]);
            }
            let n = self.notes[idx];
            proof {
                assert(n == s0[idx as int]);
            }
            if n.is_ln {
                let desired = n.ln_head_hit && !n.ln_completed && !n.ln_hold_broken && now
                    >= n.start_time && now < n.end_time;
                if desired {
                    if !n.slider_sound_playing {
                        cmds.push(AudioCommand::StartLoop { lane: n.lane });
                        let mut u = n;
                        u.slider_sound_playing = true;
                        self.notes[idx] = u;
                    }
                } else {
                    if n.slider_sound_playing {
                        cmds.push(AudioCommand::StopLoop { lane: n.lane });
                    }
                    let mut u = n;
                    u.slider_sound_playing = false;
                    self.notes[idx] = u;
                }
            }
            proof {
                assert(self.notes@[idx as int] == note_after_sync(s0[idx as int], nowg));
                assert(cmds@ =~= c0 + sync_cmds(s0.take(idx as int + 1), nowg));
            }
            idx = idx + 1;
        }
        proof {
            assert(s0.take(s0.len() as int) =~= s0);
            assert(self.notes@ =~= synced_notes(s0, nowg));
            lemma_sync_units(s0, nowg);
            assert(self@ == sync_model(m0, nowg));
            assert forall|i: int| 0 <= i < self.notes@.len() implies (
            #[trigger] self.notes@[i]).wf(self@.key_count) && self.notes@[i].consistent() by {
                assert(s0[i].wf(m0.key_count) && s0[i].consistent());
                assert(self.notes@[i] == note_after_sync(s0[i], nowg));
            }
        }
    }
}

// ---------------------------------------------------------------------------
// Release handling
// ---------------------------------------------------------------------------
/// The first note, in note order, that a release in `lane` at `now` can
/// complete, searching from position `i`.
pub open spec fn first_release_from(s: Seq<Note>, lane: int, now: int, i: int) -> Option<int>
    decreases s.len() - i,
{
    if i < 0 || i >= s.len() {
        None
    } else if s[i].release_eligible(lane, now) {
        Some(i)
    } else {
        first_release_from(s, lane, now, i + 1)
    }
}

pub proof fn lemma_first_release_props(s: Seq<Note>, lane: int, now: int, i: int)
    requires
        0 <= i,
    ensures
        first_release_from(s, lane, now, i) matches Some(j) ==> i <= j < s.len()
            && s[j].release_eligible(lane, now),
        first_release_from(s, lane, now, i) is None ==> forall|k: int|
            i <= k < s.len() ==> !(#[trigger] s[k]).release_eligible(lane, now),
    decreases s.len() - i,
{
    if i < s.len() && !s[i].release_eligible(lane, now) {
        lemma_first_release_props(s, lane, now, i + 1);
    }
}

/// The session after one release event in `lane`: the first eligible long
/// note's tail is judged by its offset and the note completes; at most one
/// tail answers one release.
pub open spec fn release_model(m: GameModel, lane: int, now: int) -> (GameModel, Seq<
    AudioCommand,
>) {
    match first_release_from(m.notes, lane, now, 0) {
        None => (m, Seq::empty()),
        Some(i) => {
            let n = m.notes[i];
            let tier = HitJudgment::tier_spec(n.tail_offset(now));
            let u = Note { ln_tail_judgment: Some(tier), ln_completed: true, ..n };
            (
                GameModel {
                    notes: m.notes.update(i, u),
                    combo: m.combo + 1,
                    score: m.score + tier.score_spec(),
                    hit_counts: m.hit_counts.bump_spec(tier),
                    last_judgment: Some(tier),
                    judgment_time: now,
                    last_input_delay: n.end_time - now,
                    ..m
                },
                seq![AudioCommand::PlayHit],
            )
        },
    }
}

impl GameState {
    /// Answer one release event in `lane` at `now`: the first long note of
    /// that lane waiting for its release inside the window gets its tail
    /// judged and completes; the hit sound is appended to `cmds`.
    pub fn handle_key_release(&mut self, lane: usize, now: i64, cmds: &mut Vec<AudioCommand>)
        requires
            old(self).wf(),
            -NOW_BOUND_US <= now <= NOW_BOUND_US,
        ensures
            final(self).wf(),
            final(self)@ == release_model(old(self)@, lane as int, now as int).0,
            final(cmds)@ == old(cmds)@ + release_model(old(self)@, lane as int, now as int).1,
    {
        let ghost m0 = old(self)@;
        let ghost nowg: int = now as int;
        let ghost laneg: int = lane as int;
        let ghost s0 = m0.notes;
        let ghost c0 = old(cmds)@;
        let mut done = false;
        let mut idx: usize = 0;
        while idx < self.notes.len()
            invariant
                old(self).wf(),
                -NOW_BOUND_US <= now <= NOW_BOUND_US,
                nowg == now as int,
                laneg == lane as int,
                m0 == old(self)@,
                s0 == m0.notes,
                c0 == old(cmds)@,
                0 <= idx <= self.notes@.len(),
                !done ==> {
                    &&& self@ == m0
                    &&& cmds@ == c0
                    &&& first_release_from(s0, laneg, nowg, 0) == first_release_from(
                        s0,
                        laneg,
                        nowg,
                        idx as int,
                    )
                },
                done ==> {
                    &&& self@ == release_model(m0, laneg, nowg).0
                    &&& cmds@ == c0 + release_model(m0, laneg, nowg).1
                },
            decreases self.notes@.len() - idx,
        {
            if !done {
                let n = self.notes[idx];
                proof {
                    assert(n == s0[idx as int]);
                    assert(n.wf(m0.key_count));
                }
                if n.lane == lane && n.is_ln && n.ln_head_hit && !n.ln_completed
                    && !n.ln_hold_broken {
                    let diff = n.end_time - now;
                    let abs_diff = if diff < 0 {
                        -diff
                    } else {
                        diff
                    };
                    if abs_diff < OK_WINDOW_US {
                        proof {
                            assert(s0[idx as int].release_eligible(laneg, nowg));
                            assert(first_release_from(s0, laneg, nowg, idx as int) == Some(
                                idx as int,
                            ));
                            crate::note::lemma_units_bounds(s0);
                            assert(m0.hit_counts.wf());
                        }
                        let judgment = HitJudgment::from_timing(abs_diff);
                        proof {
                            assert(judgment != HitJudgment::Miss);
                        }
                        let mut u = n;
                        u.ln_tail_judgment = Some(judgment);
                        u.ln_completed = true;
                        self.notes[idx] = u;
                        self.combo = self.combo + 1;
                        self.score = self.score + judgment.score_value() as i64;
                        match judgment {
                            HitJudgment::Perfect => {
                                self.hit_counts.perfect = self.hit_counts.perfect + 1;
                            },
                            HitJudgment::Great => {
                                self.hit_counts.great = self.hit_counts.great + 1;
                            },
                            HitJudgment::Good => {
                                self.hit_counts.good = self.hit_counts.good + 1;
                            },
                            HitJudgment::Okay => {
                                self.hit_counts.okay = self.hit_counts.okay + 1;
                            },
                            HitJudgment::Miss => {},
                        }
                        self.last_judgment = Some(judgment);
                        self.judgment_time_us = now;
                        self.last_input_delay_us = diff;
                        cmds.push(AudioCommand::PlayHit);
                        done = true;
                        proof {
                            assert(self.notes@ =~= s0.update(idx as int, u));
                            assert(self@ == release_model(m0, laneg, nowg).0);
                            assert(cmds@ =~= c0 + release_model(m0, laneg, nowg).1);
                        }
                    }
                }
            }
            idx = idx + 1;
        }
        proof {
            if !done {
                assert(first_release_from(s0, laneg, nowg, s0.len() as int) is None);
                assert(self@ == release_model(m0, laneg, nowg).0);
                assert(cmds@ =~= c0 + release_model(m0, laneg, nowg).1);
            }
            lemma_release_wf(m0, laneg, nowg);
        }
    }
}

/// The release pass preserves the session invariant.
pub proof fn lemma_release_wf(m: GameModel, lane: int, now: int)
    requires
        m.wf(),
    ensures
        release_model(m, lane, now).0.wf(),
{
    lemma_first_release_props(m.notes, lane, now, 0);
    match first_release_from(m.notes, lane, now, 0) {
        None => {},
        Some(i) => {
            let n = m.notes[i];
            let tier = HitJudgment::tier_spec(n.tail_offset(now));
            let u = Note { ln_tail_judgment: Some(tier), ln_completed: true, ..n };
            assert(n.release_eligible(lane, now));
            assert(n.consistent());
            assert(tier != HitJudgment::Miss);
            crate::note::lemma_units_update(m.notes, i, u);
            crate::note::lemma_units_bounds(m.notes);
            let m1 = release_model(m, lane, now).0;
            assert forall|j: int| 0 <= j < m1.notes.len() implies (#[trigger] m1.notes[j]).wf(
                m1.key_count,
            ) && m1.notes[j].consistent() by {
                assert(m.notes[j].wf(m.key_count) && m.notes[j].consistent());
            }
        },
    }
}

// ---------------------------------------------------------------------------
// Press handling
// ---------------------------------------------------------------------------
/// The note a press in `lane` at `now` answers: among the not-yet-judged
/// notes of the lane whose head is inside the window, the closest one; on a
/// tie, the first in note order.
pub open spec fn best_candidate(s: Seq<Note>, lane: int, now: int) -> Option<int>
    decreases s.len(),
{
    if s.len() == 0 {
        None
    } else {
        let prev = best_candidate(s.drop_last(), lane, now);
        let i = s.len() - 1;
        if s[i].press_eligible(lane, now) {
            match prev {
                None => Some(i),
                Some(j) => if s[i].head_offset(now) < s[j].head_offset(now) {
                    Some(i)
                } else {
                    Some(j)
                },
            }
        } else {
            prev
        }
    }
}

/// What the selection promises: the winner is eligible, no eligible note is
/// strictly closer, and every earlier eligible note is strictly farther.
pub proof fn lemma_best_candidate_props(s: Seq<Note>, lane: int, now: int)
    ensures
        best_candidate(s, lane, now) matches Some(j) ==> {
            &&& 0 <= j < s.len()
            &&& s[j].press_eligible(lane, now)
            &&& forall|k: int|
                0 <= k < s.len() && (#[trigger] s[k]).press_eligible(lane, now)
                    ==> s[j].head_offset(now) <= s[k].head_offset(now)
            &&& forall|k: int|
                0 <= k < j && (#[trigger] s[k]).press_eligible(lane, now) ==> s[k].head_offset(
                    now,
                ) > s[j].head_offset(now)
        },
        best_candidate(s, lane, now) is None ==> forall|k: int|
            0 <= k < s.len() ==> !(#[trigger] s[k]).press_eligible(lane, now),
    decreases s.len(),
{
    if s.len() > 0 {
        lemma_best_candidate_props(s.drop_last(), lane, now);
        assert(forall|k: int| 0 <= k < s.len() - 1 ==> s.drop_last()[k] == s[k]);
    }
}

/// The session after one press event in `lane`: the selected note's head is
/// judged by its offset (a tap note resolves, a long-note head opens).
pub open spec fn press_model(m: GameModel, lane: int, now: int) -> (GameModel, Seq<
    AudioCommand,
>) {
    match best_candidate(m.notes, lane, now) {
        None => (m, Seq::empty()),
        Some(i) => {
            let n = m.notes[i];
            let tier = HitJudgment::tier_spec(n.head_offset(now));
            let u = if n.is_ln {
                Note { ln_head_hit: true, ln_head_judgment: Some(tier), ..n }
            } else {
                Note { hit: true, ..n }
            };
            (
                GameModel {
                    notes: m.notes.update(i, u),
                    combo: m.combo + 1,
                    score: m.score + tier.score_spec(),
                    hit_counts: m.hit_counts.bump_spec(tier),
                    last_judgment: Some(tier),
                    judgment_time: now,
                    last_input_delay: n.start_time - now,
                    ..m
                },
                seq![AudioCommand::PlayHit],
            )
        },
    }
}

/// The press pass preserves the session invariant.
pub proof fn lemma_press_wf(m: GameModel, lane: int, now: int)
    requires
        m.wf(),
    ensures
        press_model(m, lane, now).0.wf(),
{
    lemma_best_candidate_props(m.notes, lane, now);
    match best_candidate(m.notes, lane, now) {
        None => {},
        Some(i) => {
            let n = m.notes[i];
            let tier = HitJudgment::tier_spec(n.head_offset(now));
            let u = if n.is_ln {
                Note { ln_head_hit: true, ln_head_judgment: Some(tier), ..n }
            } else {
                Note { hit: true, ..n }
            };
            assert(n.press_eligible(lane, now));
            assert(n.consistent());
            assert(tier != HitJudgment::Miss);
            crate::note::lemma_units_update(m.notes, i, u);
            crate::note::lemma_units_bounds(m.notes);
            let m1 = press_model(m, lane, now).0;
            assert forall|j: int| 0 <= j < m1.notes.len() implies (#[trigger] m1.notes[j]).wf(
                m1.key_count,
            ) && m1.notes[j].consistent() by {
                assert(m.notes[j].wf(m.key_count) && m.notes[j].consistent());
            }
        },
    }
}

impl GameState {
    /// Answer one press event in `lane` at `now`: pick the closest waiting
    /// note of the lane inside the window (first in note order on a tie),
    /// judge its head by the offset, and append the hit sound to `cmds`.
    pub fn handle_key_press(&mut self, lane: usize, now: i64, cmds: &mut Vec<AudioCommand>)
        requires
            old(self).wf(),
            -NOW_BOUND_US <= now <= NOW_BOUND_US,
        ensures
            final(self).wf(),
            final(self)@ == press_model(old(self)@, lane as int, now as int).0,
            final(cmds)@ == old(cmds)@ + press_model(old(self)@, lane as int, now as int).1,
    {
        let ghost m0 = old(self)@;
        let ghost nowg: int = now as int;
        let ghost laneg: int = lane as int;
        let ghost s0 = m0.notes;
        let mut have_best = false;
        let mut best_idx: usize = 0;
        let mut best_diff: i64 = 0;
        let mut idx: usize = 0;
        while idx < self.notes.len()
            invariant
                old(self).wf(),
                -NOW_BOUND_US <= now <= NOW_BOUND_US,
                nowg == now as int,
                laneg == lane as int,
                m0 == old(self)@,
                s0 == m0.notes,
                self@ == m0,
                0 <= idx <= self.notes@.len(),
                !have_best ==> best_candidate(s0.take(idx as int), laneg, nowg) is None,
                have_best ==> {
                    &&& best_idx < idx
                    &&& best_candidate(s0.take(idx as int), laneg, nowg) == Some(best_idx as int)
                    &&& s0[best_idx as int].press_eligible(laneg, nowg)
                    &&& best_diff == s0[best_idx as int].head_offset(nowg)
                    &&& 0 <= best_diff < OK_WINDOW_US
                },
            decreases self.notes@.len() - idx,
        {
            proof {
                assert(s0.take(idx as int + 1).drop_last() =~= s0.take(idx as int));
                assert(s0.take(idx as int + 1).last() == s0[idx as int]);
            }
            let n = self.notes[idx];
            proof {
                assert(n == s0[idx as int]);
                assert(n.wf(m0.key_count));
            }
            let can_hit = if n.is_ln {
                !n.ln_head_hit && !n.missed
            } else {
                !n.hit && !n.missed
            };
            if n.lane == lane && can_hit {
                let diff = n.start_time - now;
                let abs_diff = if diff < 0 {
                    -diff
                } else {
                    diff
                };
                if abs_diff < OK_WINDOW_US {
                    if !have_best || abs_diff < best_diff {
                        have_best = true;
                        best_idx = idx;
                        best_diff = abs_diff;
                    }
                }
            }
            idx = idx + 1;
        }
        proof {
            assert(s0.take(s0.len() as int) =~= s0);
            lemma_press_wf(m0, laneg, nowg);
        }
        if have_best {
            let n = self.notes[best_idx];
            proof {
                assert(n == s0[best_idx as int]);
                assert(n.wf(m0.key_count));
                crate::note::lemma_units_bounds(s0);
            }
            let timing_diff = n.start_time - now;
            let abs_diff = if timing_diff < 0 {
                -timing_diff
            } else {
                timing_diff
            };
            let judgment = HitJudgment::from_timing(abs_diff);
            proof {
                assert(judgment == HitJudgment::tier_spec(n.head_offset(nowg)));
                assert(judgment != HitJudgment::Miss);
            }
            let mut u = n;
            if n.is_ln {
                u.ln_head_hit = true;
                u.ln_head_judgment = Some(judgment);
            } else {
                u.hit = true;
            }
            self.notes[best_idx] = u;
            self.combo = self.combo + 1;
            self.score = self.score + judgment.score_value() as i64;
            match judgment {
                HitJudgment::Perfect => {
                    self.hit_counts.perfect = self.hit_counts.perfect + 1;
                },
                HitJudgment::Great => {
                    self.hit_counts.great = self.hit_counts.great + 1;
                },
                HitJudgment::Good => {
                    self.hit_counts.good = self.hit_counts.good + 1;
                },
                HitJudgment::Okay => {
                    self.hit_counts.okay = self.hit_counts.okay + 1;
                },
                HitJudgment::Miss => {},
            }
            self.last_judgment = Some(judgment);
            self.judgment_time_us = now;
            self.last_input_delay_us = timing_diff;
            cmds.push(AudioCommand::PlayHit);
            proof {
                assert(self.notes@ =~= s0.update(best_idx as int, u));
                assert(self@ == press_model(m0, laneg, nowg).0);
                assert(cmds@ =~= old(cmds)@ + press_model(m0, laneg, nowg).1);
            }
        } else {
            proof {
                assert(cmds@ =~= old(cmds)@ + press_model(m0, laneg, nowg).1);
            }
        }
    }
}

// ---------------------------------------------------------------------------
// The frame update
// ---------------------------------------------------------------------------
/// How long after the song's audio ends the session closes (microseconds).
pub const SONG_END_GRACE_US: i64 = 2_000_000;

/// Press events of all lanes from `l` on, applied in lane order.
pub open spec fn presses_from(m: GameModel, pressed: Seq<bool>, now: int, l: int) -> (
    GameModel,
    Seq<AudioCommand>,
)
    decreases pressed.len() - l,
{
    if l < 0 || l >= pressed.len() {
        (m, Seq::empty())
    } else {
        let step = if pressed[l] {
            press_model(m, l, now)
        } else {
            (m, Seq::<AudioCommand>::empty())
        };
        let rest = presses_from(step.0, pressed, now, l + 1);
        (rest.0, step.1 + rest.1)
    }
}

/// Release events of all lanes from `l` on, applied in lane order.
pub open spec fn releases_from(m: GameModel, released: Seq<bool>, now: int, l: int) -> (
    GameModel,
    Seq<AudioCommand>,
)
    decreases released.len() - l,
{
    if l < 0 || l >= released.len() {
        (m, Seq::empty())
    } else {
        let step = if released[l] {
            release_model(m, l, now)
        } else {
            (m, Seq::<AudioCommand>::empty())
        };
        let rest = releases_from(step.0, released, now, l + 1);
        (rest.0, step.1 + rest.1)
    }
}

/// The hold-integrity check of all lanes from `l` on, in lane order.
pub open spec fn holds_from(m: GameModel, held: Seq<bool>, now: int, l: int) -> GameModel
    decreases held.len() - l,
{
    if l < 0 || l >= held.len() {
        m
    } else {
        holds_from(hold_check_model(m, l, held[l], now), held, now, l + 1)
    }
}

/// One whole frame.  A finished session stays as it is; the frame that
/// crosses the end-of-song grace period closes the session and silences
/// every loop; otherwise presses, releases, hold checks, the hold-sound
/// diff and the missed-note sweep run in that order.
pub open spec fn update_model(
    m: GameModel,
    pressed: Seq<bool>,
    released: Seq<bool>,
    held: Seq<bool>,
    now: int,
) -> (GameModel, Seq<AudioCommand>) {
    if m.song_finished {
        (m, Seq::empty())
    } else if now >= m.song_duration + SONG_END_GRACE_US {
        (GameModel { song_finished: true, ..m }, seq![AudioCommand::StopAll])
    } else {
        let p = presses_from(m, pressed, now, 0);
        let r = releases_from(p.0, released, now, 0);
        let h = holds_from(r.0, held, now, 0);
        let sw = miss_sweep_model(sync_model(h, now), now);
        (sw, p.1 + r.1 + sync_cmds(h.notes, now))
    }
}

impl GameState {
    /// Drive the session one frame forward.  `pressed`, `released` and
    /// `held` give one flag per lane; `now` is the pause-compensated song
    /// clock in microseconds.  Returns the audio commands of the frame.
    pub fn update(
        &mut self,
        pressed: &Vec<bool>,
        released: &Vec<bool>,
        held: &Vec<bool>,
        now: i64,
    ) -> (cmds: Vec<AudioCommand>)
        requires
            old(self).wf(),
            pressed@.len() == old(self)@.key_count,
            released@.len() == old(self)@.key_count,
            held@.len() == old(self)@.key_count,
            -NOW_BOUND_US <= now <= NOW_BOUND_US,
        ensures
            final(self).wf(),
            final(self)@ == update_model(old(self)@, pressed@, released@, held@, now as int).0,
            cmds@ == update_model(old(self)@, pressed@, released@, held@, now as int).1,
    {
        let ghost m0 = old(self)@;
        let ghost nowg: int = now as int;
        let mut cmds: Vec<AudioCommand> = Vec::new();
        if self.song_finished {
            return cmds;
        }
        if now >= self.song_duration_us + SONG_END_GRACE_US {
            self.song_finished = true;
            cmds.push(AudioCommand::StopAll);
            proof {
                assert(cmds@ =~= seq![AudioCommand::StopAll]);
            }
            return cmds;
        }
        let ghost ptotal = presses_from(m0, pressed@, nowg, 0);
        let mut lane: usize = 0;
        while lane < self.key_count
            invariant
                -NOW_BOUND_US <= now <= NOW_BOUND_US,
                nowg == now as int,
                m0 == old(self)@,
                ptotal == presses_from(m0, pressed@, nowg, 0),
                pressed@.len() == m0.key_count,
                self.wf(),
                self@.key_count == m0.key_count,
                0 <= lane <= self.key_count,
                presses_from(self@, pressed@, nowg, lane as int).0 == ptotal.0,
                cmds@ + presses_from(self@, pressed@, nowg, lane as int).1 == ptotal.1,
            decreases self@.key_count - lane,
        {
            if pressed[lane] {
                self.handle_key_press(lane, now, &mut cmds);
            }
            lane = lane + 1;
        }
        proof {
            assert(self@ == ptotal.0);
            assert(cmds@ =~= ptotal.1);
        }
        let ghost rtotal = releases_from(ptotal.0, released@, nowg, 0);
        let mut lane: usize = 0;
        while lane < self.key_count
            invariant
                -NOW_BOUND_US <= now <= NOW_BOUND_US,
                nowg == now as int,
                rtotal == releases_from(ptotal.0, released@, nowg, 0),
                released@.len() == m0.key_count,
                self.wf(),
                self@.key_count == m0.key_count,
                0 <= lane <= self.key_count,
                releases_from(self@, released@, nowg, lane as int).0 == rtotal.0,
                cmds@ + releases_from(self@, released@, nowg, lane as int).1 == ptotal.1
                    + rtotal.1,
            decreases self@.key_count - lane,
        {
            if released[lane] {
                self.handle_key_release(lane, now, &mut cmds);
            }
            lane = lane + 1;
        }
        proof {
            assert(self@ == rtotal.0);
            assert(cmds@ =~= ptotal.1 + rtotal.1);
        }
        let ghost htotal = holds_from(rtotal.0, held@, nowg, 0);
        let mut lane: usize = 0;
        while lane < self.key_count
            invariant
                -NOW_BOUND_US <= now <= NOW_BOUND_US,
                nowg == now as int,
                htotal == holds_from(rtotal.0, held@, nowg, 0),
                held@.len() == m0.key_count,
                self.wf(),
                self@.key_count == m0.key_count,
                0 <= lane <= self.key_count,
                holds_from(self@, held@, nowg, lane as int) == htotal,
                cmds@ == ptotal.1 + rtotal.1,
            decreases self@.key_count - lane,
        {
            let is_holding = held[lane];
            self.check_ln_hold_integrity(lane, is_holding, now);
            lane = lane + 1;
        }
        proof {
            assert(self@ == htotal);
        }
        self.sync_slider_sounds(now, &mut cmds);
        self.check_missed_notes(now);
        proof {
            let u = update_model(m0, pressed@, released@, held@, nowg);
            assert(self@ == u.0);
            assert(cmds@ =~= u.1);
        }
        cmds
    }
}

} // verus!
