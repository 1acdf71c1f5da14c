//! Session-wide laws of the judgment engine, proved over its model.

use vstd::prelude::*;

use crate::engine::best_candidate;
use crate::engine::hold_check_model;
use crate::engine::lemma_best_candidate_props;
use crate::engine::lemma_sweep_count_bounds;
use crate::engine::miss_sweep_model;
use crate::engine::miss_units;
use crate::engine::note_after_hold_check;
use crate::engine::note_after_miss_sweep;
use crate::engine::press_model;
use crate::engine::presses_from;
use crate::engine::release_model;
use crate::engine::releases_from;
use crate::engine::holds_from;
use crate::engine::hold_break_count;
use crate::engine::hold_break_units;
use crate::engine::hold_checked_notes;
use crate::engine::note_after_sync;
use crate::engine::sync_model;
use crate::engine::update_model;
use crate::engine::SONG_END_GRACE_US;
use crate::engine::AudioCommand;
use crate::engine::sweep_miss_count;
use crate::judgment::HitJudgment;
use crate::note::Note;
use crate::session::GameModel;

verus! {

/// A press in a lane holding a waiting note whose head time is exactly
/// `now` always earns `Perfect`: the selection can only pick a note at
/// offset zero, and offset zero is inside the `Perfect` window.
pub proof fn lemma_press_on_time_is_perfect(m: GameModel, lane: int, now: int, i: int)
    requires
        m.wf(),
        0 <= i < m.notes.len(),
        m.notes[i].press_eligible(lane, now),
        m.notes[i].start_time == now,
    ensures
        press_model(m, lane, now).0.hit_counts.perfect == m.hit_counts.perfect + 1,
        press_model(m, lane, now).0.combo == m.combo + 1,
        press_model(m, lane, now).0.score == m.score + 300,
        press_model(m, lane, now).0.last_judgment == Some(HitJudgment::Perfect),
{
    lemma_best_candidate_props(m.notes, lane, now);
    assert(m.notes[i].head_offset(now) == 0);
    match best_candidate(m.notes, lane, now) {
        None => {
            assert(false);
        },
        Some(j) => {
            assert(m.notes[j].head_offset(now) <= m.notes[i].head_offset(now));
            assert(m.notes[j].head_offset(now) >= 0);
            assert(HitJudgment::tier_spec(m.notes[j].head_offset(now)) == HitJudgment::Perfect);
            crate::note::lemma_units_bounds(m.notes);
        },
    }
}

/// Every valid position contributes at most its own units to the sweep
/// count, and at least them.
pub proof fn lemma_sweep_count_at_least(s: Seq<Note>, now: int, i: int)
    requires
        0 <= i < s.len(),
    ensures
        sweep_miss_count(s, now) >= miss_units(s[i], now),
    decreases s.len(),
{
    lemma_sweep_count_bounds(s, now);
    if i == s.len() - 1 {
        lemma_sweep_count_bounds(s.drop_last(), now);
    } else {
        lemma_sweep_count_at_least(s.drop_last(), now, i);
    }
}

/// A long note whose head was never pressed and whose start time lies more
/// than the window in the past is resolved by the sweep with head and tail
/// both judged `Miss`, two misses charged, and the combo reset.
pub proof fn lemma_forfeited_long_note_double_miss(m: GameModel, now: int, i: int)
    requires
        m.wf(),
        0 <= i < m.notes.len(),
        m.notes[i].head_miss_due(now),
    ensures
        miss_sweep_model(m, now).notes[i].ln_head_judgment == Some(HitJudgment::Miss),
        miss_sweep_model(m, now).notes[i].ln_tail_judgment == Some(HitJudgment::Miss),
        miss_sweep_model(m, now).notes[i].missed,
        miss_sweep_model(m, now).hit_counts.miss >= m.hit_counts.miss + 2,
        miss_sweep_model(m, now).combo == 0,
{
    assert(miss_units(m.notes[i], now) == 2);
    lemma_sweep_count_at_least(m.notes, now, i);
    lemma_sweep_count_bounds(m.notes, now);
    crate::note::lemma_units_bounds(m.notes);
    assert(miss_sweep_model(m, now).notes[i] == note_after_miss_sweep(m.notes[i], now));
}

/// Breaking a hold mid-way (the key is up inside the hold phase) forfeits
/// the tail as a miss, charges one miss, and resets the combo.
pub proof fn lemma_hold_break_effects(m: GameModel, lane: int, holding: bool, now: int, i: int)
    requires
        m.wf(),
        0 <= i < m.notes.len(),
        m.notes[i].lane == lane,
        m.notes[i].holding_phase(now),
        !holding,
    ensures
        hold_check_model(m, lane, holding, now).notes[i].ln_hold_broken,
        hold_check_model(m, lane, holding, now).notes[i].ln_completed,
        hold_check_model(m, lane, holding, now).notes[i].ln_tail_judgment == Some(
            HitJudgment::Miss,
        ),
        hold_check_model(m, lane, holding, now).hit_counts.miss >= m.hit_counts.miss + 1,
        hold_check_model(m, lane, holding, now).combo == 0,
{
    crate::engine::lemma_hold_count_at_least(m.notes, lane, holding, now, i);
    crate::engine::lemma_hold_count_bounds(m.notes, lane, holding, now);
    crate::note::lemma_units_bounds(m.notes);
    assert(hold_check_model(m, lane, holding, now).notes[i] == note_after_hold_check(
        m.notes[i],
        lane,
        holding,
        now,
    ));
}

// ---------------------------------------------------------------------------
// Helpers: how the lane chains act on the model
// ---------------------------------------------------------------------------
/// With no press events the press chain does nothing.
pub proof fn lemma_presses_noop(m: GameModel, pressed: Seq<bool>, now: int, l: int)
    requires
        0 <= l,
        forall|k: int| 0 <= k < pressed.len() ==> !pressed[k],
    ensures
        presses_from(m, pressed, now, l).0 == m,
        presses_from(m, pressed, now, l).1 == Seq::<AudioCommand>::empty(),
    decreases pressed.len() - l,
{
    if l < pressed.len() {
        lemma_presses_noop(m, pressed, now, l + 1);
        assert(Seq::<AudioCommand>::empty() + Seq::<AudioCommand>::empty() =~= Seq::<
            AudioCommand,
        >::empty());
    }
}

/// With no release events the release chain does nothing.
pub proof fn lemma_releases_noop(m: GameModel, released: Seq<bool>, now: int, l: int)
    requires
        0 <= l,
        forall|k: int| 0 <= k < released.len() ==> !released[k],
    ensures
        releases_from(m, released, now, l).0 == m,
        releases_from(m, released, now, l).1 == Seq::<AudioCommand>::empty(),
    decreases released.len() - l,
{
    if l < released.len() {
        lemma_releases_noop(m, released, now, l + 1);
        assert(Seq::<AudioCommand>::empty() + Seq::<AudioCommand>::empty() =~= Seq::<
            AudioCommand,
        >::empty());
    }
}

/// The press chain never touches the frame-wide fields and note count.
pub proof fn lemma_presses_meta(m: GameModel, pressed: Seq<bool>, now: int, l: int)
    ensures
        presses_from(m, pressed, now, l).0.notes.len() == m.notes.len(),
        presses_from(m, pressed, now, l).0.song_finished == m.song_finished,
        presses_from(m, pressed, now, l).0.song_duration == m.song_duration,
        presses_from(m, pressed, now, l).0.key_count == m.key_count,
    decreases pressed.len() - l,
{
    if 0 <= l && l < pressed.len() {
        let step = if pressed[l] {
            press_model(m, l, now)
        } else {
            (m, Seq::<AudioCommand>::empty())
        };
        lemma_best_candidate_props(m.notes, l, now);
        lemma_presses_meta(step.0, pressed, now, l + 1);
    }
}

/// The release chain never touches the frame-wide fields and note count.
pub proof fn lemma_releases_meta(m: GameModel, released: Seq<bool>, now: int, l: int)
    ensures
        releases_from(m, released, now, l).0.notes.len() == m.notes.len(),
        releases_from(m, released, now, l).0.song_finished == m.song_finished,
        releases_from(m, released, now, l).0.song_duration == m.song_duration,
        releases_from(m, released, now, l).0.key_count == m.key_count,
    decreases released.len() - l,
{
    if 0 <= l && l < released.len() {
        let step = if released[l] {
            release_model(m, l, now)
        } else {
            (m, Seq::<AudioCommand>::empty())
        };
        crate::engine::lemma_first_release_props(m.notes, l, now, 0);
        lemma_releases_meta(step.0, released, now, l + 1);
    }
}

/// What the hold chain does to each single note: the check of the note's
/// own lane, if that lane is still to come, and nothing else.
pub proof fn lemma_holds_from_pointwise(m: GameModel, held: Seq<bool>, now: int, l: int)
    requires
        0 <= l,
    ensures
        holds_from(m, held, now, l).notes.len() == m.notes.len(),
        holds_from(m, held, now, l).song_finished == m.song_finished,
        holds_from(m, held, now, l).song_duration == m.song_duration,
        holds_from(m, held, now, l).key_count == m.key_count,
        forall|i: int|
            0 <= i < m.notes.len() ==> holds_from(m, held, now, l).notes[i] == (
            if l <= (#[trigger] m.notes[i]).lane < held.len() {
                note_after_hold_check(
                    m.notes[i],
                    m.notes[i].lane as int,
                    held[m.notes[i].lane as int],
                    now,
                )
            } else {
                m.notes[i]
            }),
    decreases held.len() - l,
{
    if l < held.len() {
        let m1 = hold_check_model(m, l, held[l], now);
        lemma_holds_from_pointwise(m1, held, now, l + 1);
        assert forall|i: int| 0 <= i < m.notes.len() implies holds_from(m, held, now, l).notes[i]
            == (if l <= (#[trigger] m.notes[i]).lane < held.len() {
            note_after_hold_check(
                m.notes[i],
                m.notes[i].lane as int,
                held[m.notes[i].lane as int],
                now,
            )
        } else {
            m.notes[i]
        }) by {
            let n = m.notes[i];
            assert(m1.notes[i] == note_after_hold_check(n, l, held[l], now));
            if n.lane == l {
                assert(m1.notes[i] == note_after_hold_check(n, n.lane as int, held[n.lane as int], now));
                assert(m1.notes[i].lane == n.lane);
            } else {
                assert(m1.notes[i] == n);
            }
        }
    }
}

/// The press chain leaves an already-opened long note alone.
pub proof fn lemma_presses_preserve_opened(
    m: GameModel,
    pressed: Seq<bool>,
    now: int,
    l: int,
    i: int,
)
    requires
        0 <= i < m.notes.len(),
        m.notes[i].is_ln,
        m.notes[i].ln_head_hit,
    ensures
        presses_from(m, pressed, now, l).0.notes[i] == m.notes[i],
    decreases pressed.len() - l,
{
    lemma_presses_meta(m, pressed, now, l);
    if 0 <= l && l < pressed.len() {
        if pressed[l] {
            lemma_best_candidate_props(m.notes, l, now);
            let m1 = press_model(m, l, now).0;
            assert(m1.notes[i] == m.notes[i]);
            lemma_presses_preserve_opened(m1, pressed, now, l + 1, i);
        } else {
            lemma_presses_preserve_opened(m, pressed, now, l + 1, i);
        }
    }
}

/// The release chain leaves a broken long note alone.
pub proof fn lemma_releases_preserve_broken(
    m: GameModel,
    released: Seq<bool>,
    now: int,
    l: int,
    i: int,
)
    requires
        0 <= i < m.notes.len(),
        m.notes[i].ln_hold_broken,
    ensures
        releases_from(m, released, now, l).0.notes[i] == m.notes[i],
    decreases released.len() - l,
{
    lemma_releases_meta(m, released, now, l);
    if 0 <= l && l < released.len() {
        if released[l] {
            crate::engine::lemma_first_release_props(m.notes, l, now, 0);
            let m1 = release_model(m, l, now).0;
            assert(m1.notes[i] == m.notes[i]);
            lemma_releases_preserve_broken(m1, released, now, l + 1, i);
        } else {
            lemma_releases_preserve_broken(m, released, now, l + 1, i);
        }
    }
}

// ---------------------------------------------------------------------------
// Idempotence of the frame update
// ---------------------------------------------------------------------------
/// An event vector with no events.
pub open spec fn no_events(ev: Seq<bool>) -> bool {
    forall|k: int| 0 <= k < ev.len() ==> !ev[k]
}

/// Nothing is left for the frame passes to do: no note is overdue and no
/// healthy hold sits in a lane whose key is up.
pub open spec fn frame_settled(m: GameModel, held: Seq<bool>, now: int) -> bool {
    forall|i: int|
        0 <= i < m.notes.len() ==> {
            &&& miss_units(#[trigger] m.notes[i], now) == 0
            &&& (m.notes[i].lane < held.len() ==> !(m.notes[i].holding_phase(now)
                && !held[m.notes[i].lane as int]))
        }
}

pub proof fn lemma_sweep_count_zero(s: Seq<Note>, now: int)
    requires
        forall|i: int| 0 <= i < s.len() ==> miss_units(#[trigger] s[i], now) == 0,
    ensures
        sweep_miss_count(s, now) == 0,
    decreases s.len(),
{
    if s.len() > 0 {
        assert(miss_units(s[s.len() - 1], now) == 0);
        lemma_sweep_count_zero(s.drop_last(), now);
    }
}

pub proof fn lemma_hold_count_zero(s: Seq<Note>, lane: int, holding: bool, now: int)
    requires
        forall|i: int| 0 <= i < s.len() ==> hold_break_units(#[trigger] s[i], lane, holding, now)
            == 0,
    ensures
        hold_break_count(s, lane, holding, now) == 0,
    decreases s.len(),
{
    if s.len() > 0 {
        assert(hold_break_units(s[s.len() - 1], lane, holding, now) == 0);
        lemma_hold_count_zero(s.drop_last(), lane, holding, now);
    }
}

/// A hold check with nothing to break changes nothing.
pub proof fn lemma_hold_check_identity(m: GameModel, lane: int, holding: bool, now: int)
    requires
        forall|i: int|
            0 <= i < m.notes.len() ==> hold_break_units(
                #[trigger] m.notes[i],
                lane,
                holding,
                now,
            ) == 0,
    ensures
        hold_check_model(m, lane, holding, now) == m,
{
    lemma_hold_count_zero(m.notes, lane, holding, now);
    assert(hold_checked_notes(m.notes, lane, holding, now) =~= m.notes);
}

/// On a settled state the whole hold chain changes nothing.
pub proof fn lemma_holds_identity_chain(m: GameModel, held: Seq<bool>, now: int, l: int)
    requires
        0 <= l,
        frame_settled(m, held, now),
    ensures
        holds_from(m, held, now, l) == m,
    decreases held.len() - l,
{
    if l < held.len() {
        assert forall|i: int| 0 <= i < m.notes.len() implies hold_break_units(
            #[trigger] m.notes[i],
            l,
            held[l],
            now,
        ) == 0 by {
            if m.notes[i].lane == l {
                assert(miss_units(m.notes[i], now) == 0);
            }
        }
        lemma_hold_check_identity(m, l, held[l], now);
        lemma_holds_identity_chain(m, held, now, l + 1);
    }
}

/// After one frame, nothing is left for a second frame at the same time and
/// with the same held keys to do.
pub proof fn lemma_update_settles(
    m: GameModel,
    pressed: Seq<bool>,
    released: Seq<bool>,
    held: Seq<bool>,
    now: int,
)
    requires
        !m.song_finished,
        now < m.song_duration + SONG_END_GRACE_US,
    ensures
        frame_settled(update_model(m, pressed, released, held, now).0, held, now),
{
    let p = presses_from(m, pressed, now, 0);
    let r = releases_from(p.0, released, now, 0);
    let h = holds_from(r.0, held, now, 0);
    let sy = sync_model(h, now);
    let m1 = miss_sweep_model(sy, now);
    lemma_presses_meta(m, pressed, now, 0);
    lemma_releases_meta(p.0, released, now, 0);
    lemma_holds_from_pointwise(r.0, held, now, 0);
    assert(update_model(m, pressed, released, held, now).0 == m1);
    assert forall|i: int| 0 <= i < m1.notes.len() implies {
        &&& miss_units(#[trigger] m1.notes[i], now) == 0
        &&& (m1.notes[i].lane < held.len() ==> !(m1.notes[i].holding_phase(now)
            && !held[m1.notes[i].lane as int]))
    } by {
        let rn = r.0.notes[i];
        let hn = h.notes[i];
        let syn = note_after_sync(hn, now);
        let fin = note_after_miss_sweep(syn, now);
        assert(sy.notes[i] == syn);
        assert(m1.notes[i] == fin);
        assert(miss_units(fin, now) == 0);
        assert(fin.lane == rn.lane);
        if fin.lane < held.len() && fin.holding_phase(now) && !held[fin.lane as int] {
            assert(fin == syn);
            assert(hn.holding_phase(now));
            assert(hn == note_after_hold_check(rn, rn.lane as int, held[rn.lane as int], now));
            assert(false);
        }
    }
}

/// Running `update` twice with the same clock and the same held keys, the
/// second time without any new press or release events, changes neither the
/// score nor the combo nor any hit-count bucket.
pub proof fn lemma_update_idempotent(
    m: GameModel,
    pressed: Seq<bool>,
    released: Seq<bool>,
    held: Seq<bool>,
    now: int,
    pressed2: Seq<bool>,
    released2: Seq<bool>,
)
    requires
        no_events(pressed2),
        no_events(released2),
    ensures
        ({
            let m1 = update_model(m, pressed, released, held, now).0;
            let m2 = update_model(m1, pressed2, released2, held, now).0;
            &&& m2.score == m1.score
            &&& m2.combo == m1.combo
            &&& m2.hit_counts == m1.hit_counts
            &&& m2.last_judgment == m1.last_judgment
        }),
{
    let m1 = update_model(m, pressed, released, held, now).0;
    let m2 = update_model(m1, pressed2, released2, held, now).0;
    if m.song_finished {
    } else if now >= m.song_duration + SONG_END_GRACE_US {
    } else {
        let p = presses_from(m, pressed, now, 0);
        let r = releases_from(p.0, released, now, 0);
        let h = holds_from(r.0, held, now, 0);
        lemma_presses_meta(m, pressed, now, 0);
        lemma_releases_meta(p.0, released, now, 0);
        lemma_holds_from_pointwise(r.0, held, now, 0);
        lemma_update_settles(m, pressed, released, held, now);
        assert(!m1.song_finished);
        assert(m1.song_duration == m.song_duration);
        lemma_presses_noop(m1, pressed2, now, 0);
        lemma_releases_noop(m1, released2, now, 0);
        lemma_holds_identity_chain(m1, held, now, 0);
        let sy2 = sync_model(m1, now);
        assert forall|i: int| 0 <= i < sy2.notes.len() implies miss_units(
            #[trigger] sy2.notes[i],
            now,
        ) == 0 by {
            assert(sy2.notes[i] == note_after_sync(m1.notes[i], now));
            assert(miss_units(m1.notes[i], now) == 0);
        }
        lemma_sweep_count_zero(sy2.notes, now);
        assert(m2 == miss_sweep_model(sy2, now));
    }
}

/// The note list is created once per loaded chart: no frame ever adds or
/// removes a note, and the lane layout never moves.
pub proof fn lemma_note_count_stable(
    m: GameModel,
    pressed: Seq<bool>,
    released: Seq<bool>,
    held: Seq<bool>,
    now: int,
)
    ensures
        update_model(m, pressed, released, held, now).0.notes.len() == m.notes.len(),
        update_model(m, pressed, released, held, now).0.key_count == m.key_count,
{
    if !m.song_finished && now < m.song_duration + SONG_END_GRACE_US {
        let p = presses_from(m, pressed, now, 0);
        let r = releases_from(p.0, released, now, 0);
        lemma_presses_meta(m, pressed, now, 0);
        lemma_releases_meta(p.0, released, now, 0);
        lemma_holds_from_pointwise(r.0, held, now, 0);
    }
}

// ---------------------------------------------------------------------------
// A broken hold stays broken
// ---------------------------------------------------------------------------
/// Once a long note's hold is broken, no later frame revives it: it stays
/// broken and completed, and it is never in holding phase again.
pub proof fn lemma_hold_broken_stays(
    m: GameModel,
    pressed: Seq<bool>,
    released: Seq<bool>,
    held: Seq<bool>,
    now: int,
    i: int,
)
    requires
        m.wf(),
        0 <= i < m.notes.len(),
        m.notes[i].ln_hold_broken,
    ensures
        ({
            let m1 = update_model(m, pressed, released, held, now).0;
            &&& m1.notes.len() == m.notes.len()
            &&& m1.notes[i].ln_hold_broken
            &&& m1.notes[i].ln_completed
            &&& m1.notes[i].ln_tail_judgment == m.notes[i].ln_tail_judgment
            &&& !m1.notes[i].holding_phase(now)
        }),
{
    assert(m.notes[i].consistent());
    if m.song_finished {
    } else if now >= m.song_duration + SONG_END_GRACE_US {
    } else {
        let p = presses_from(m, pressed, now, 0);
        let r = releases_from(p.0, released, now, 0);
        let h = holds_from(r.0, held, now, 0);
        lemma_presses_meta(m, pressed, now, 0);
        lemma_releases_meta(p.0, released, now, 0);
        lemma_holds_from_pointwise(r.0, held, now, 0);
        lemma_presses_preserve_opened(m, pressed, now, 0, i);
        lemma_releases_preserve_broken(p.0, released, now, 0, i);
        let rn = r.0.notes[i];
        assert(rn == m.notes[i]);
        let hn = h.notes[i];
        assert(hn == rn);
        let syn = note_after_sync(hn, now);
        let fin = note_after_miss_sweep(syn, now);
        let m1 = update_model(m, pressed, released, held, now).0;
        assert(m1.notes[i] == fin);
    }
}

} // verus!
