//! Frame-by-frame behaviour of the judgment engine.

use rustania::engine::AudioCommand;
use rustania::judgment::HitJudgment;
use rustania::note::Note;
use rustania::session::GameState;

fn lanes(flags: [bool; 4]) -> Vec<bool> {
    vec![flags[0], flags[1], flags[2], flags[3]]
}

fn quiet() -> Vec<bool> {
    vec![false, false, false, false]
}

#[test]
fn tap_press_slightly_late_is_perfect() {
    // One tap note at 2.000 s in lane 0 of four; press at 2.010 s.
    let note = Note::new(0, 2_000_000, 2_000_000, false);
    let mut state = GameState::new(vec![note], 4, 10_000_000);
    let cmds = state.update(&lanes([true, false, false, false]), &quiet(), &lanes(
        [true, false, false, false],
    ), 2_010_000);
    assert!(state.notes[0].hit);
    assert_eq!(state.score, 300);
    assert_eq!(state.combo, 1);
    assert_eq!(state.hit_counts.perfect, 1);
    assert_eq!(state.last_judgment, Some(HitJudgment::Perfect));
    assert_eq!(state.last_input_delay_us, -10_000);
    assert_eq!(cmds, vec![AudioCommand::PlayHit]);
}

#[test]
fn press_exactly_on_time_is_perfect() {
    let note = Note::new(2, 1_500_000, 1_500_000, false);
    let mut state = GameState::new(vec![note], 4, 10_000_000);
    state.update(&lanes([false, false, true, false]), &quiet(), &lanes(
        [false, false, true, false],
    ), 1_500_000);
    assert_eq!(state.last_judgment, Some(HitJudgment::Perfect));
    assert_eq!(state.hit_counts.perfect, 1);
}

#[test]
fn press_outside_window_hits_nothing() {
    let note = Note::new(0, 2_000_000, 2_000_000, false);
    let mut state = GameState::new(vec![note], 4, 10_000_000);
    let cmds = state.update(&lanes([true, false, false, false]), &quiet(), &lanes(
        [true, false, false, false],
    ), 1_800_000);
    assert!(!state.notes[0].hit);
    assert_eq!(state.score, 0);
    assert_eq!(state.combo, 0);
    assert!(cmds.is_empty());
}

#[test]
fn tie_breaks_to_first_note_in_order() {
    // Two equally distant taps in the same lane; the first in note order wins.
    let a = Note::new(0, 1_000_000, 1_000_000, false);
    let b = Note::new(0, 1_040_000, 1_040_000, false);
    let mut state = GameState::new(vec![a, b], 4, 10_000_000);
    state.update(&lanes([true, false, false, false]), &quiet(), &lanes(
        [true, false, false, false],
    ), 1_020_000);
    assert!(state.notes[0].hit);
    assert!(!state.notes[1].hit);
}

#[test]
fn update_twice_same_now_changes_nothing() {
    let a = Note::new(0, 1_000_000, 1_000_000, false);
    let b = Note::new(1, 3_000_000, 3_200_000, true);
    let mut state = GameState::new(vec![a, b], 4, 10_000_000);
    let held = lanes([true, false, false, false]);
    state.update(&lanes([true, false, false, false]), &quiet(), &held, 1_010_000);
    let score = state.score;
    let combo = state.combo;
    let counts = state.hit_counts;
    let cmds = state.update(&quiet(), &quiet(), &held, 1_010_000);
    assert_eq!(state.score, score);
    assert_eq!(state.combo, combo);
    assert_eq!(state.hit_counts, counts);
    assert!(cmds.is_empty());
}

#[test]
fn overdue_tap_becomes_miss() {
    let note = Note::new(0, 1_000_000, 1_000_000, false);
    let mut state = GameState::new(vec![note], 4, 10_000_000);
    // 135 ms late is still reachable, 136 ms is not.
    state.update(&quiet(), &quiet(), &quiet(), 1_135_000);
    assert!(!state.notes[0].missed);
    state.update(&quiet(), &quiet(), &quiet(), 1_136_000);
    assert!(state.notes[0].missed);
    assert_eq!(state.hit_counts.miss, 1);
    assert_eq!(state.combo, 0);
}

#[test]
fn unpressed_long_note_forfeits_head_and_tail() {
    let note = Note::new(1, 1_000_000, 2_000_000, true);
    let mut state = GameState::new(vec![note], 4, 10_000_000);
    state.update(&quiet(), &quiet(), &quiet(), 1_140_000);
    assert!(state.notes[0].missed);
    assert!(state.notes[0].ln_completed);
    assert_eq!(state.notes[0].ln_head_judgment, Some(HitJudgment::Miss));
    assert_eq!(state.notes[0].ln_tail_judgment, Some(HitJudgment::Miss));
    assert_eq!(state.hit_counts.miss, 2);
    assert_eq!(state.combo, 0);
}

#[test]
fn long_note_full_hold_and_release() {
    let note = Note::new(0, 1_000_000, 2_000_000, true);
    let mut state = GameState::new(vec![note], 4, 10_000_000);
    let down = lanes([true, false, false, false]);
    // Head press right on time; the loop sound starts.
    let cmds = state.update(&down, &quiet(), &down, 1_000_000);
    assert!(state.notes[0].ln_head_hit);
    assert_eq!(state.notes[0].ln_head_judgment, Some(HitJudgment::Perfect));
    assert_eq!(cmds, vec![AudioCommand::PlayHit, AudioCommand::StartLoop { lane: 0 }]);
    // Holding through the middle keeps everything as it is.
    let cmds = state.update(&quiet(), &quiet(), &down, 1_500_000);
    assert!(cmds.is_empty());
    assert!(!state.notes[0].ln_completed);
    // Release 20 ms before the tail: a perfect tail, loop stops.
    let cmds = state.update(&quiet(), &down, &quiet(), 1_980_000);
    assert!(state.notes[0].ln_completed);
    assert_eq!(state.notes[0].ln_tail_judgment, Some(HitJudgment::Perfect));
    assert_eq!(state.combo, 2);
    assert_eq!(state.score, 600);
    assert_eq!(state.hit_counts.perfect, 2);
    assert_eq!(cmds, vec![AudioCommand::PlayHit, AudioCommand::StopLoop { lane: 0 }]);
}

#[test]
fn releasing_mid_hold_breaks_the_note() {
    // Head hit at 1.02 s, then the key comes up at 1.5 s, far from the tail.
    let note = Note::new(0, 1_000_000, 2_000_000, true);
    let mut state = GameState::new(vec![note], 4, 10_000_000);
    let down = lanes([true, false, false, false]);
    state.update(&down, &quiet(), &down, 1_020_000);
    assert!(state.notes[0].ln_head_hit);
    assert_eq!(state.notes[0].ln_head_judgment, Some(HitJudgment::Perfect));
    let cmds = state.update(&quiet(), &down, &quiet(), 1_500_000);
    assert!(state.notes[0].ln_hold_broken);
    assert!(state.notes[0].ln_completed);
    assert_eq!(state.notes[0].ln_tail_judgment, Some(HitJudgment::Miss));
    assert_eq!(state.combo, 0);
    assert_eq!(state.hit_counts.miss, 1);
    assert_eq!(cmds, vec![AudioCommand::StopLoop { lane: 0 }]);
    // The note never re-enters holding: later frames leave it broken and
    // silent, and charge nothing further.
    let cmds = state.update(&quiet(), &quiet(), &quiet(), 1_600_000);
    assert!(state.notes[0].ln_hold_broken);
    assert!(!state.notes[0].slider_sound_playing);
    assert!(cmds.is_empty());
    state.update(&quiet(), &quiet(), &quiet(), 2_200_000);
    assert_eq!(state.hit_counts.miss, 1);
}

#[test]
fn held_head_with_no_release_forfeits_tail() {
    let note = Note::new(0, 1_000_000, 1_200_000, true);
    let mut state = GameState::new(vec![note], 4, 10_000_000);
    let down = lanes([true, false, false, false]);
    state.update(&down, &quiet(), &down, 1_000_000);
    // Still holding long after the tail window has passed: the loop sound
    // stops (no longer desired) and the tail is forfeited.
    let cmds = state.update(&quiet(), &quiet(), &down, 1_340_000);
    assert!(state.notes[0].ln_completed);
    assert_eq!(state.notes[0].ln_tail_judgment, Some(HitJudgment::Miss));
    assert_eq!(state.hit_counts.miss, 1);
    assert_eq!(state.combo, 0);
    assert_eq!(cmds, vec![AudioCommand::StopLoop { lane: 0 }]);
    assert!(!state.notes[0].slider_sound_playing);
}

#[test]
fn loop_stops_at_window_edge_while_still_held() {
    // The key is held past the tail; the moment the clock leaves the hold
    // window the loop is no longer desired and stops, even though the tail
    // is still unresolved.
    let note = Note::new(0, 1_000_000, 2_000_000, true);
    let mut state = GameState::new(vec![note], 4, 10_000_000);
    let down = lanes([true, false, false, false]);
    let cmds = state.update(&down, &quiet(), &down, 1_000_000);
    assert_eq!(cmds, vec![AudioCommand::PlayHit, AudioCommand::StartLoop { lane: 0 }]);
    let cmds = state.update(&quiet(), &quiet(), &down, 2_050_000);
    assert_eq!(cmds, vec![AudioCommand::StopLoop { lane: 0 }]);
    assert!(!state.notes[0].slider_sound_playing);
    // Inside the tail window nothing is forfeited yet; a release at 100 ms
    // past the tail still earns its tier.
    assert!(!state.notes[0].ln_completed);
    state.update(&quiet(), &down, &quiet(), 2_100_000);
    assert!(state.notes[0].ln_completed);
    assert_eq!(state.notes[0].ln_tail_judgment, Some(HitJudgment::Good));
}

#[test]
fn one_release_answers_one_tail() {
    // Two long notes wait for release in the same lane; one release event
    // completes only the first.
    let a = Note::new(0, 1_000_000, 2_000_000, true);
    let b = Note::new(0, 1_100_000, 2_050_000, true);
    let mut state = GameState::new(vec![a, b], 4, 10_000_000);
    let down = lanes([true, false, false, false]);
    state.update(&down, &quiet(), &down, 1_000_000);
    state.update(&down, &quiet(), &down, 1_100_000);
    assert!(state.notes[0].ln_head_hit && state.notes[1].ln_head_hit);
    state.update(&quiet(), &down, &down, 2_000_000);
    assert!(state.notes[0].ln_completed);
    assert!(!state.notes[1].ln_completed);
}

#[test]
fn song_end_closes_the_session() {
    let note = Note::new(0, 1_000_000, 1_000_000, false);
    let mut state = GameState::new(vec![note], 4, 10_000_000);
    let cmds = state.update(&quiet(), &quiet(), &quiet(), 11_999_999);
    assert!(!state.song_finished);
    assert!(cmds.is_empty() || !cmds.contains(&AudioCommand::StopAll));
    let cmds = state.update(&quiet(), &quiet(), &quiet(), 12_000_000);
    assert!(state.song_finished);
    assert_eq!(cmds, vec![AudioCommand::StopAll]);
    // A finished session ignores further frames.
    let score = state.score;
    let cmds = state.update(&lanes([true, false, false, false]), &quiet(), &quiet(), 12_100_000);
    assert!(cmds.is_empty());
    assert_eq!(state.score, score);
}

#[test]
fn score_stays_weighted_sum_of_counts() {
    let a = Note::new(0, 1_000_000, 1_000_000, false);
    let b = Note::new(1, 1_050_000, 1_050_000, false);
    let c = Note::new(2, 1_100_000, 1_100_000, false);
    let mut state = GameState::new(vec![a, b, c], 4, 10_000_000);
    state.update(&lanes([true, false, false, false]), &quiet(), &quiet(), 1_000_000);
    state.update(&lanes([false, true, false, false]), &quiet(), &quiet(), 1_100_000);
    state.update(&quiet(), &quiet(), &quiet(), 1_300_000);
    // Perfect (300) + Okay at 50 ms (great: 200)?  1.100 - 1.050 = 50 ms
    // which is Great territory (<= 75 ms); the third note times out.
    assert_eq!(state.hit_counts.perfect, 1);
    assert_eq!(state.hit_counts.great, 1);
    assert_eq!(state.hit_counts.miss, 1);
    assert_eq!(state.score, 500);
    assert_eq!(state.hit_counts.weighted(), state.score);
    assert_eq!(state.combo, 0);
}
