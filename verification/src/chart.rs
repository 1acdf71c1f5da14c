//! The chart parser: from raw chart text to metadata, the timing table and
//! the playable note list.
//!
//! The format is line-oriented.  Section headers stand in brackets;
//! `[General]` and `[Difficulty]` hold `Key:value` lines, `[Events]` may
//! name a background image, `[TimingPoints]` and `[HitObjects]` hold
//! comma-separated rows.  Malformed numeric fields fall back to documented
//! defaults and never abort a load.

use vstd::prelude::*;
use vstd::string::StringSliceAdditionalSpecFns;

use crate::decimal::MAX_ABS_SCALED;
use crate::decimal::lemma_parse_decimal_bounds;
use crate::decimal::parse_decimal;
use crate::decimal::parse_decimal_spec;
use crate::decimal::parse_i32;
use crate::decimal::parse_i32_spec;
use crate::note::MIN_LN_DURATION_US;
use crate::note::Note;
use crate::session::GameState;
use crate::session::NOTE_CAP;
use crate::text::find_byte;
use crate::text::find_from;
use crate::text::split_on;
use crate::text::split_spec;
use crate::text::starts_with;
use crate::text::starts_with_spec;
use crate::text::trim;
use crate::text::trim_spec;
use crate::text::bytes_eq;
use crate::text::bytes_of;
use crate::text::push_bytes;
use crate::timing::DEFAULT_BEAT_LEN_US;
use crate::timing::DEFAULT_VEL_X1000;
use crate::timing::MAX_VEL_X1000;
use crate::timing::TimingPoint;
use crate::timing::inherited_velocity;
use crate::timing::lemma_velocity_at_wf;
use crate::timing::velocity_at;
use crate::timing::velocity_at_spec;

verus! {

/// Default slider multiplier (1.4, in thousandths).
pub const DEFAULT_SLIDER_MULT_X1000: i64 = 1_400;

/// Longest slider duration the parser accepts (microseconds); anything the
/// velocity formula yields beyond this is clamped.
pub const MAX_SLIDER_DURATION_US: i64 = 10_000_000_000_000;

/// Everything one chart file yields.
pub struct ChartData {
    /// The audio asset named under `[General]`.
    pub audio_filename: Vec<u8>,
    /// The background image named under `[Events]`, when one is given.
    pub background_filename: Option<Vec<u8>>,
    /// The `[Difficulty]` slider multiplier, in thousandths.
    pub slider_multiplier_x1000: i64,
    pub timing_points: Vec<TimingPoint>,
    pub notes: Vec<Note>,
    pub key_count: usize,
}

/// The sections the parser reads.
#[derive(Clone, Copy, Debug, PartialEq, Eq, Structural)]
pub enum Section {
    General,
    Difficulty,
    Events,
    TimingPoints,
    HitObjects,
    Other,
}

pub open spec fn section_for(t: Seq<u8>) -> Section {
    if t == ("[General]").spec_bytes() {
        Section::General
    } else if t == ("[Difficulty]").spec_bytes() {
        Section::Difficulty
    } else if t == ("[Events]").spec_bytes() {
        Section::Events
    } else if t == ("[TimingPoints]").spec_bytes() {
        Section::TimingPoints
    } else if t == ("[HitObjects]").spec_bytes() {
        Section::HitObjects
    } else {
        Section::Other
    }
}

/// Which section a (trimmed) header line opens.
pub fn section_of(t: &[u8]) -> (r: Section)
    ensures
        r == section_for(t@),
{
    if bytes_eq(t, "[General]".as_bytes()) {
        Section::General
    } else if bytes_eq(t, "[Difficulty]".as_bytes()) {
        Section::Difficulty
    } else if bytes_eq(t, "[Events]".as_bytes()) {
        Section::Events
    } else if bytes_eq(t, "[TimingPoints]".as_bytes()) {
        Section::TimingPoints
    } else if bytes_eq(t, "[HitObjects]".as_bytes()) {
        Section::HitObjects
    } else {
        Section::Other
    }
}

/// A parsed decimal field, or the documented default.
pub open spec fn dec_or(s: Seq<u8>, d: i64) -> i64 {
    match parse_decimal_spec(s) {
        Some(v) => v,
        None => d,
    }
}

pub fn dec_or_default(s: &[u8], d: i64) -> (r: i64)
    ensures
        r == dec_or(s@, d),
        parse_decimal_spec(s@) is Some ==> -MAX_ABS_SCALED <= r <= MAX_ABS_SCALED,
{
    proof {
        lemma_parse_decimal_bounds(s@);
    }
    match parse_decimal(s) {
        Some(v) => v,
        None => d,
    }
}

/// A parsed integer field, or the documented default.
pub open spec fn i32_or(s: Seq<u8>, d: i32) -> i32 {
    match parse_i32_spec(s) {
        Some(v) => v,
        None => d,
    }
}

pub fn i32_or_default(s: &[u8], d: i32) -> (r: i32)
    ensures
        r == i32_or(s@, d),
{
    match parse_i32(s) {
        Some(v) => v,
        None => d,
    }
}

/// The value of a `Key:value` line: what stands between the first and the
/// second colon, trimmed.
pub open spec fn kv_value_spec(t: Seq<u8>) -> Seq<u8> {
    let c1 = find_from(t, 0, 58);
    if c1 >= t.len() {
        Seq::<u8>::empty()
    } else {
        let c2 = find_from(t, c1 + 1, 58);
        trim_spec(t.subrange(c1 + 1, c2))
    }
}

pub fn kv_value(t: &[u8]) -> (r: Vec<u8>)
    ensures
        r@ == kv_value_spec(t@),
{
    let c1 = find_byte(t, 0, 58);
    if c1 >= t.len() {
        Vec::new()
    } else {
        let c2 = find_byte(t, c1 + 1, 58);
        let mid = bytes_of(t, c1 + 1, c2);
        trim(mid.as_slice())
    }
}

/// The background image a `0,0,"..."` event line names: the bytes between
/// the quotes, or nothing when the closing quote is missing.
pub open spec fn bg_of_spec(t: Seq<u8>) -> Option<Seq<u8>> {
    let p = ("0,0,\"").spec_bytes().len() as int;
    let q = find_from(t, p, 34);
    if q >= t.len() {
        None
    } else {
        Some(t.subrange(p, q))
    }
}

/// The running state of the metadata scan.
pub ghost struct ConfigState {
    pub section: Section,
    pub audio: Seq<u8>,
    pub slider_mult: i64,
    pub timing: Seq<TimingPoint>,
    pub bg_done: bool,
    pub background: Option<Seq<u8>>,
}

pub open spec fn config_init() -> ConfigState {
    ConfigState {
        section: Section::Other,
        audio: Seq::empty(),
        slider_mult: DEFAULT_SLIDER_MULT_X1000,
        timing: Seq::empty(),
        bg_done: false,
        background: None,
    }
}

/// One `[TimingPoints]` row: a positive value is an uninherited point and
/// becomes the beat length; a non-positive value is inherited, carries the
/// most recent beat length forward, and encodes a velocity multiplier (zero
/// when the value is zero).
pub open spec fn timing_step(st: ConfigState, t: Seq<u8>) -> ConfigState {
    let fields = split_spec(t, 44);
    if fields.len() < 2 {
        st
    } else {
        let time = dec_or(fields[0], 0);
        let val = dec_or(fields[1], DEFAULT_BEAT_LEN_US);
        if val > 0 {
            ConfigState {
                timing: st.timing.push(
                    TimingPoint { time_us: time, beat_len_us: val, vel_x1000: DEFAULT_VEL_X1000 },
                ),
                ..st
            }
        } else {
            let beat = if st.timing.len() > 0 {
                st.timing.last().beat_len_us
            } else {
                DEFAULT_BEAT_LEN_US
            };
            let vel = if val == 0 {
                0
            } else {
                (MAX_VEL_X1000 as int / -(val as int)) as i64
            };
            ConfigState {
                timing: st.timing.push(
                    TimingPoint { time_us: time, beat_len_us: beat, vel_x1000: vel },
                ),
                ..st
            }
        }
    }
}

/// One line of the metadata scan.
pub open spec fn config_step(st: ConfigState, line: Seq<u8>) -> ConfigState {
    let t = trim_spec(line);
    if t.len() == 0 || starts_with_spec(t, ("//").spec_bytes()) {
        st
    } else if starts_with_spec(t, ("[").spec_bytes()) {
        ConfigState { section: section_for(t), ..st }
    } else {
        match st.section {
            Section::General => if starts_with_spec(t, ("AudioFilename:").spec_bytes()) {
                ConfigState { audio: kv_value_spec(t), ..st }
            } else {
                st
            },
            Section::Difficulty => if starts_with_spec(t, ("SliderMultiplier:").spec_bytes()) {
                ConfigState {
                    slider_mult: dec_or(kv_value_spec(t), DEFAULT_SLIDER_MULT_X1000),
                    ..st
                }
            } else {
                st
            },
            Section::Events => if !st.bg_done && starts_with_spec(t, ("0,0,\"").spec_bytes()) {
                ConfigState { bg_done: true, background: bg_of_spec(t), ..st }
            } else {
                st
            },
            Section::TimingPoints => timing_step(st, t),
            _ => st,
        }
    }
}

/// The metadata scan over the lines from `i` on.
pub open spec fn config_scan(ls: Seq<Seq<u8>>, i: int, st: ConfigState) -> ConfigState
    decreases ls.len() - i,
{
    if i < 0 || i >= ls.len() {
        st
    } else {
        config_scan(ls, i + 1, config_step(st, ls[i]))
    }
}

/// A chart with no timing point gets the default one.
pub open spec fn final_timing(timing: Seq<TimingPoint>) -> Seq<TimingPoint> {
    if timing.len() == 0 {
        seq![
            TimingPoint {
                time_us: 0,
                beat_len_us: DEFAULT_BEAT_LEN_US,
                vel_x1000: DEFAULT_VEL_X1000,
            },
        ]
    } else {
        timing
    }
}

/// The lane a horizontal position maps to: `floor(x * key_count / 512)`,
/// clamped into the lanes.
pub open spec fn lane_spec(x: i64, kc: int) -> int {
    if x <= 0 {
        0
    } else {
        let q = (x * kc) / 512_000;
        if q >= kc - 1 {
            kc - 1
        } else {
            q
        }
    }
}

/// Slider duration from the velocity model, in microseconds:
/// `pixel_length / (slider_mult * 100 * velocity) * beat_length * slides`,
/// zero when any factor is degenerate, clamped at the duration cap.
pub open spec fn slider_duration_spec(px: i64, slides: i64, bl: i64, vel: i64, sm: i64) -> int {
    if px <= 0 || slides <= 0 || bl <= 0 || vel <= 0 || sm <= 0 {
        0
    } else {
        let q = (px * bl * slides) / (100 * sm * vel);
        if q > MAX_SLIDER_DURATION_US {
            MAX_SLIDER_DURATION_US as int
        } else {
            q
        }
    }
}

/// The note one `[HitObjects]` row yields.  A hold's end time is its
/// explicit field; a slider's comes from the velocity model; a tap ends
/// where it starts, and an end before the start degrades to the start.
pub open spec fn hit_object_spec(
    fields: Seq<Seq<u8>>,
    timing: Seq<TimingPoint>,
    sm: i64,
    kc: int,
) -> Option<Note> {
    if fields.len() < 4 {
        None
    } else {
        let x = dec_or(fields[0], 0);
        let start = dec_or(fields[2], 0);
        let ty = i32_or(fields[3], 0);
        let lane = lane_spec(x, kc);
        let raw_end: int = if ty & 128 != 0 && fields.len() > 5 {
            dec_or(fields[5].take(find_from(fields[5], 0, 58)), 0) as int
        } else if ty & 2 != 0 && fields.len() >= 8 {
            start + slider_duration_spec(
                dec_or(fields[7], 0),
                dec_or(fields[6], 1000),
                velocity_at_spec(timing, start as int).0,
                velocity_at_spec(timing, start as int).1,
                sm,
            )
        } else {
            start as int
        };
        let end: int = if raw_end < start {
            start as int
        } else {
            raw_end
        };
        Some(
            Note {
                start_time: start,
                end_time: end as i64,
                lane: lane as usize,
                hit: false,
                missed: false,
                is_ln: end - start >= MIN_LN_DURATION_US,
                ln_head_hit: false,
                ln_hold_broken: false,
                ln_completed: false,
                ln_head_judgment: None,
                ln_tail_judgment: None,
                slider_sound_playing: false,
            },
        )
    }
}

/// The running state of the note scan.
pub ghost struct NotesState {
    pub section: Section,
    pub notes: Seq<Note>,
}

/// Append a parsed note; a chart beyond the session cap is truncated so
/// that every session counter stays far inside its integer type.
pub open spec fn push_note(notes: Seq<Note>, r: Option<Note>) -> Seq<Note> {
    match r {
        Some(nt) => if notes.len() < NOTE_CAP {
            notes.push(nt)
        } else {
            notes
        },
        None => notes,
    }
}

/// One line of the note scan.
pub open spec fn notes_step(
    st: NotesState,
    line: Seq<u8>,
    timing: Seq<TimingPoint>,
    sm: i64,
    kc: int,
) -> NotesState {
    let t = trim_spec(line);
    if t.len() == 0 || starts_with_spec(t, ("//").spec_bytes()) {
        st
    } else if starts_with_spec(t, ("[").spec_bytes()) {
        NotesState { section: section_for(t), ..st }
    } else if st.section == Section::HitObjects {
        NotesState {
            notes: push_note(st.notes, hit_object_spec(split_spec(t, 44), timing, sm, kc)),
            ..st
        }
    } else {
        st
    }
}

/// The note scan over the lines from `i` on.
pub open spec fn notes_scan(
    ls: Seq<Seq<u8>>,
    i: int,
    st: NotesState,
    timing: Seq<TimingPoint>,
    sm: i64,
    kc: int,
) -> NotesState
    decreases ls.len() - i,
{
    if i < 0 || i >= ls.len() {
        st
    } else {
        notes_scan(ls, i + 1, notes_step(st, ls[i], timing, sm, kc), timing, sm, kc)
    }
}

/// The metadata of a chart text.
pub open spec fn chart_config_spec(content: Seq<u8>) -> ConfigState {
    config_scan(split_spec(content, 10), 0, config_init())
}

/// The timing table of a chart text.
pub open spec fn chart_timing_spec(content: Seq<u8>) -> Seq<TimingPoint> {
    final_timing(chart_config_spec(content).timing)
}

/// The note list of a chart text.
pub open spec fn chart_notes_spec(content: Seq<u8>, kc: int) -> Seq<Note> {
    notes_scan(
        split_spec(content, 10),
        0,
        NotesState { section: Section::Other, notes: Seq::empty() },
        chart_timing_spec(content),
        chart_config_spec(content).slider_mult,
        kc,
    ).notes
}

/// Parse one (trimmed, comma-split) hit-object row.
pub fn parse_hit_object(
    fields: &Vec<Vec<u8>>,
    timing: &Vec<TimingPoint>,
    slider_mult: i64,
    key_count: usize,
) -> (r: Option<Note>)
    requires
        1 <= key_count,
        forall|i: int| 0 <= i < timing@.len() ==> (#[trigger] timing@[i]).wf(),
        -MAX_ABS_SCALED <= slider_mult <= MAX_ABS_SCALED,
    ensures
        r == hit_object_spec(
            fields@.map_values(|v: Vec<u8>| v@),
            timing@,
            slider_mult,
            key_count as int,
        ),
        r matches Some(nt) ==> nt.wf(key_count as int) && nt.fresh(),
{
    let ghost fs = fields@.map_values(|v: Vec<u8>| v@);
    if fields.len() < 4 {
        return None;
    }
    proof {
        assert(fs[0] == fields@[0]@);
        assert(fs[2] == fields@[2]@);
        assert(fs[3] == fields@[3]@);
    }
    let x = dec_or_default(fields[0].as_slice(), 0);
    let start = dec_or_default(fields[2].as_slice(), 0);
    let ty = i32_or_default(fields[3].as_slice(), 0);
    proof {
        lemma_parse_decimal_bounds(fs[0]);
        lemma_parse_decimal_bounds(fs[2]);
        assert(-MAX_ABS_SCALED <= x <= MAX_ABS_SCALED);
        assert(-MAX_ABS_SCALED <= start <= MAX_ABS_SCALED);
    }
    let lane: usize = if x <= 0 {
        0
    } else {
        proof {
            assert(x as int * key_count as int <= MAX_ABS_SCALED as int * usize::MAX as int)
                by (nonlinear_arith)
                requires
                    0 < x <= MAX_ABS_SCALED,
                    0 < key_count <= usize::MAX,
            ;
            assert(x as int * key_count as int >= 0) by (nonlinear_arith)
                requires
                    0 < x,
                    0 < key_count,
            ;
        }
        let prod: i128 = x as i128 * key_count as i128;
        let q = prod / 512_000i128;
        if q >= key_count as i128 - 1 {
            key_count - 1
        } else {
            q as usize
        }
    };
    proof {
        assert(lane == lane_spec(x, key_count as int));
        assert(0 <= lane < key_count);
    }
    let is_hold = ty & 128 != 0;
    let is_slider = ty & 2 != 0;
    let raw_end: i64 = if is_hold && fields.len() > 5 {
        let e = fields[5].as_slice();
        let c = find_byte(e, 0, 58);
        let prefix = bytes_of(e, 0, c);
        proof {
            assert(fs[5] == fields@[5]@);
            assert(prefix@ =~= fs[5].take(find_from(fs[5], 0, 58)));
            lemma_parse_decimal_bounds(prefix@);
        }
        dec_or_default(prefix.as_slice(), 0)
    } else if is_slider && fields.len() >= 8 {
        proof {
            assert(fs[6] == fields@[6]@);
            assert(fs[7] == fields@[7]@);
        }
        let px = dec_or_default(fields[7].as_slice(), 0);
        let slides = dec_or_default(fields[6].as_slice(), 1000);
        let (bl, vm) = velocity_at(timing, start);
        proof {
            lemma_velocity_at_wf(timing@, start as int);
            lemma_parse_decimal_bounds(fs[6]);
            lemma_parse_decimal_bounds(fs[7]);
        }
        let dur: i64 = if px <= 0 || slides <= 0 || bl <= 0 || vm <= 0 || slider_mult <= 0 {
            0
        } else {
            proof {
                assert(px as int * bl as int <= MAX_ABS_SCALED as int * MAX_ABS_SCALED as int
                    && px as int * bl as int >= 0) by (nonlinear_arith)
                    requires
                        0 < px <= MAX_ABS_SCALED,
                        0 < bl <= MAX_ABS_SCALED,
                ;
                assert((px as int * bl as int) * slides as int <= (MAX_ABS_SCALED as int
                    * MAX_ABS_SCALED as int) * MAX_ABS_SCALED as int && (px as int * bl as int)
                    * slides as int >= 0) by (nonlinear_arith)
                    requires
                        0 <= px as int * bl as int <= MAX_ABS_SCALED as int * MAX_ABS_SCALED as int,
                        0 < slides <= MAX_ABS_SCALED,
                ;
                assert(100 * (slider_mult as int) * (vm as int) <= 100 * MAX_ABS_SCALED as int
                    * MAX_VEL_X1000 as int && 100 * (slider_mult as int) * (vm as int) > 0)
                    by (nonlinear_arith)
                    requires
                        0 < slider_mult <= MAX_ABS_SCALED,
                        0 < vm <= MAX_VEL_X1000,
                ;
            }
            let num: u128 = px as u128 * bl as u128 * slides as u128;
            let den: u128 = 100u128 * slider_mult as u128 * vm as u128;
            let q = num / den;
            if q > MAX_SLIDER_DURATION_US as u128 {
                MAX_SLIDER_DURATION_US
            } else {
                q as i64
            }
        };
        proof {
            assert(dur == slider_duration_spec(px, slides, bl, vm, slider_mult));
            assert(0 <= dur <= MAX_SLIDER_DURATION_US);
        }
        start + dur
    } else {
        start
    };
    let end = if raw_end < start {
        start
    } else {
        raw_end
    };
    let is_ln = end - start >= MIN_LN_DURATION_US;
    Some(
        Note {
            start_time: start,
            end_time: end,
            lane,
            hit: false,
            missed: false,
            is_ln,
            ln_head_hit: false,
            ln_hold_broken: false,
            ln_completed: false,
            ln_head_judgment: None,
            ln_tail_judgment: None,
            slider_sound_playing: false,
        },
    )
}

/// The view of an optional byte buffer.
pub open spec fn opt_bytes(o: Option<Vec<u8>>) -> Option<Seq<u8>> {
    match o {
        Some(v) => Some(v@),
        None => None,
    }
}

/// Parse a whole chart text for a `key_count`-lane session.
///
/// Every note comes out fresh and structurally valid: its lane exists, its
/// end never precedes its start, and it is a long note exactly when it
/// lasts at least the long-note floor.
pub fn parse_chart(content: &[u8], key_count: usize) -> (r: ChartData)
    requires
        1 <= key_count,
        content@.len() < usize::MAX,
    ensures
        r.key_count == key_count,
        r.audio_filename@ == chart_config_spec(content@).audio,
        opt_bytes(r.background_filename) == chart_config_spec(content@).background,
        r.slider_multiplier_x1000 == chart_config_spec(content@).slider_mult,
        r.timing_points@ == chart_timing_spec(content@),
        r.notes@ == chart_notes_spec(content@, key_count as int),
        r.notes@.len() <= NOTE_CAP,
        forall|i: int|
            0 <= i < r.notes@.len() ==> (#[trigger] r.notes@[i]).wf(key_count as int)
                && r.notes@[i].fresh(),
        forall|i: int| 0 <= i < r.timing_points@.len() ==> (#[trigger] r.timing_points@[i]).wf(),
        -MAX_ABS_SCALED <= r.slider_multiplier_x1000 <= MAX_ABS_SCALED,
{
    let lines = split_on(content, 10);
    let ghost ls = split_spec(content@, 10);
    proof {
        crate::text::lemma_split_piece_len(content@, 10);
        assert(forall|i: int| 0 <= i < lines@.len() ==> (#[trigger] lines@[i])@ == ls[i]);
    }
    // --- metadata scan ---
    let mut section = Section::Other;
    let mut audio: Vec<u8> = Vec::new();
    let mut sm: i64 = DEFAULT_SLIDER_MULT_X1000;
    let mut timing: Vec<TimingPoint> = Vec::new();
    let mut bg_done = false;
    let mut background: Option<Vec<u8>> = None;
    let mut idx: usize = 0;
    proof {
        assert(audio@ =~= Seq::<u8>::empty());
        assert(timing@ =~= Seq::<TimingPoint>::empty());
    }
    while idx < lines.len()
        invariant
            content@.len() < usize::MAX,
            ls == split_spec(content@, 10),
            lines@.len() == ls.len(),
            forall|i: int| 0 <= i < lines@.len() ==> (#[trigger] lines@[i])@ == ls[i],
            forall|i: int| 0 <= i < ls.len() ==> (#[trigger] ls[i]).len() <= content@.len(),
            0 <= idx <= lines@.len(),
            config_scan(ls, 0, config_init()) == config_scan(
                ls,
                idx as int,
                ConfigState {
                    section: section,
                    audio: audio@,
                    slider_mult: sm,
                    timing: timing@,
                    bg_done: bg_done,
                    background: opt_bytes(background),
                },
            ),
            -MAX_ABS_SCALED <= sm <= MAX_ABS_SCALED,
            forall|i: int| 0 <= i < timing@.len() ==> (#[trigger] timing@[i]).wf(),
        decreases lines@.len() - idx,
    {
        let ghost st0 = ConfigState {
            section: section,
            audio: audio@,
            slider_mult: sm,
            timing: timing@,
            bg_done: bg_done,
            background: opt_bytes(background),
        };
        let t = trim(lines[idx].as_slice());
        proof {
            assert(lines@[idx as int]@ == ls[idx as int]);
            assert(t@ == trim_spec(ls[idx as int]));
            crate::text::lemma_trim_len(ls[idx as int]);
        }
        if t.len() == 0 {
        } else if starts_with(t.as_slice(), "//".as_bytes()) {
        } else if starts_with(t.as_slice(), "[".as_bytes()) {
            section = section_of(t.as_slice());
        } else {
            match section {
                Section::General => {
                    if starts_with(t.as_slice(), "AudioFilename:".as_bytes()) {
                        audio = kv_value(t.as_slice());
                    }
                },
                Section::Difficulty => {
                    if starts_with(t.as_slice(), "SliderMultiplier:".as_bytes()) {
                        let v = kv_value(t.as_slice());
                        sm = dec_or_default(v.as_slice(), DEFAULT_SLIDER_MULT_X1000);
                        proof {
                            lemma_parse_decimal_bounds(v@);
                        }
                    }
                },
                Section::Events => {
                    if !bg_done && starts_with(t.as_slice(), "0,0,\"".as_bytes()) {
                        bg_done = true;
                        let p = "0,0,\"".as_bytes();
                        let q = find_byte(t.as_slice(), p.len(), 34);
                        background = if q >= t.len() {
                            None
                        } else {
                            Some(bytes_of(t.as_slice(), p.len(), q))
                        };
                    }
                },
                Section::TimingPoints => {
                    let fields = split_on(t.as_slice(), 44);
                    let ghost fs = fields@.map_values(|v: Vec<u8>| v@);
                    if fields.len() >= 2 {
                        proof {
                            assert(fs[0] == fields@[0]@);
                            assert(fs[1] == fields@[1]@);
                        }
                        let time = dec_or_default(fields[0].as_slice(), 0);
                        let val = dec_or_default(fields[1].as_slice(), DEFAULT_BEAT_LEN_US);
                        proof {
                            lemma_parse_decimal_bounds(fs[0]);
                            lemma_parse_decimal_bounds(fs[1]);
                        }
                        if val > 0 {
                            timing.push(
                                TimingPoint {
                                    time_us: time,
                                    beat_len_us: val,
                                    vel_x1000: DEFAULT_VEL_X1000,
                                },
                            );
                        } else {
                            let beat = if timing.len() > 0 {
                                timing[timing.len() - 1].beat_len_us
                            } else {
                                DEFAULT_BEAT_LEN_US
                            };
                            let vel = if val == 0 {
                                0
                            } else {
                                inherited_velocity(val)
                            };
                            timing.push(
                                TimingPoint { time_us: time, beat_len_us: beat, vel_x1000: vel },
                            );
                        }
                    }
                },
                _ => {},
            }
        }
        proof {
            assert(ConfigState {
                section: section,
                audio: audio@,
                slider_mult: sm,
                timing: timing@,
                bg_done: bg_done,
                background: opt_bytes(background),
            } == config_step(st0, ls[idx as int]));
        }
        idx = idx + 1;
    }
    let ghost cfg = chart_config_spec(content@);
    proof {
        assert(cfg == ConfigState {
            section: section,
            audio: audio@,
            slider_mult: sm,
            timing: timing@,
            bg_done: bg_done,
            background: opt_bytes(background),
        });
    }
    if timing.len() == 0 {
        timing.push(
            TimingPoint {
                time_us: 0,
                beat_len_us: DEFAULT_BEAT_LEN_US,
                vel_x1000: DEFAULT_VEL_X1000,
            },
        );
        proof {
            assert(timing@ =~= final_timing(cfg.timing));
        }
    }
    proof {
        assert(timing@ == final_timing(cfg.timing));
    }
    // --- note scan ---
    let mut section = Section::Other;
    let mut notes: Vec<Note> = Vec::new();
    let mut idx: usize = 0;
    proof {
        assert(notes@ =~= Seq::<Note>::empty());
    }
    while idx < lines.len()
        invariant
            content@.len() < usize::MAX,
            1 <= key_count,
            ls == split_spec(content@, 10),
            lines@.len() == ls.len(),
            forall|i: int| 0 <= i < lines@.len() ==> (#[trigger] lines@[i])@ == ls[i],
            forall|i: int| 0 <= i < ls.len() ==> (#[trigger] ls[i]).len() <= content@.len(),
            0 <= idx <= lines@.len(),
            timing@ == chart_timing_spec(content@),
            sm == chart_config_spec(content@).slider_mult,
            -MAX_ABS_SCALED <= sm <= MAX_ABS_SCALED,
            forall|i: int| 0 <= i < timing@.len() ==> (#[trigger] timing@[i]).wf(),
            notes_scan(
                ls,
                0,
                NotesState { section: Section::Other, notes: Seq::empty() },
                timing@,
                sm,
                key_count as int,
            ) == notes_scan(
                ls,
                idx as int,
                NotesState { section: section, notes: notes@ },
                timing@,
                sm,
                key_count as int,
            ),
            notes@.len() <= NOTE_CAP,
            forall|i: int|
                0 <= i < notes@.len() ==> (#[trigger] notes@[i]).wf(key_count as int)
                    && notes@[i].fresh(),
        decreases lines@.len() - idx,
    {
        let ghost st0 = NotesState { section: section, notes: notes@ };
        let t = trim(lines[idx].as_slice());
        proof {
            assert(lines@[idx as int]@ == ls[idx as int]);
            assert(t@ == trim_spec(ls[idx as int]));
            crate::text::lemma_trim_len(ls[idx as int]);
        }
        if t.len() == 0 {
        } else if starts_with(t.as_slice(), "//".as_bytes()) {
        } else if starts_with(t.as_slice(), "[".as_bytes()) {
            section = section_of(t.as_slice());
        } else if matches!(section, Section::HitObjects) {
            let fields = split_on(t.as_slice(), 44);
            let nt = parse_hit_object(&fields, &timing, sm, key_count);
            match nt {
                Some(n) => {
                    if notes.len() < NOTE_CAP {
                        notes.push(n);
                    }
                },
                None => {},
            }
        }
        proof {
            assert(NotesState { section: section, notes: notes@ } == notes_step(
                st0,
                ls[idx as int],
                timing@,
                sm,
                key_count as int,
            ));
        }
        idx = idx + 1;
    }
    ChartData {
        audio_filename: audio,
        background_filename: background,
        slider_multiplier_x1000: sm,
        timing_points: timing,
        notes,
        key_count,
    }
}

/// Parse a chart and open a fresh session over its notes.  The song
/// duration comes from the decoded audio and is supplied by the caller.
pub fn start_session(content: &[u8], key_count: usize, song_duration_us: i64) -> (r: GameState)
    requires
        1 <= key_count,
        content@.len() < usize::MAX,
        0 <= song_duration_us <= crate::note::TIME_BOUND_US,
    ensures
        r.wf(),
        r@ == (crate::session::GameModel {
            notes: chart_notes_spec(content@, key_count as int),
            score: 0,
            combo: 0,
            hit_counts: crate::scoring::HitCounts {
                perfect: 0,
                great: 0,
                good: 0,
                okay: 0,
                miss: 0,
            },
            last_judgment: None,
            judgment_time: crate::session::INITIAL_JUDGMENT_TIME_US as int,
            last_input_delay: 0,
            song_finished: false,
            key_count: key_count as int,
            song_duration: song_duration_us as int,
        }),
{
    let chart = parse_chart(content, key_count);
    GameState::new(chart.notes, key_count, song_duration_us)
}

/// The difficulty name of a chart: the value of its first `Version:` line.
pub open spec fn version_scan(ls: Seq<Seq<u8>>, i: int) -> Seq<u8>
    decreases ls.len() - i,
{
    if i < 0 || i >= ls.len() {
        ("Unknown").spec_bytes()
    } else {
        let t = trim_spec(ls[i]);
        if starts_with_spec(t, ("Version:").spec_bytes()) {
            kv_value_spec(t)
        } else {
            version_scan(ls, i + 1)
        }
    }
}

pub open spec fn version_spec(content: Seq<u8>) -> Seq<u8> {
    version_scan(split_spec(content, 10), 0)
}

/// The difficulty name a chart text carries, `Unknown` when none is given.
pub fn version_from_chart(content: &[u8]) -> (r: Vec<u8>)
    requires
        content@.len() < usize::MAX,
    ensures
        r@ == version_spec(content@),
{
    let lines = split_on(content, 10);
    let ghost ls = split_spec(content@, 10);
    proof {
        assert(forall|i: int| 0 <= i < lines@.len() ==> (#[trigger] lines@[i])@ == ls[i]);
    }
    let mut idx: usize = 0;
    while idx < lines.len()
        invariant
            ls == split_spec(content@, 10),
            lines@.len() == ls.len(),
            forall|i: int| 0 <= i < lines@.len() ==> (#[trigger] lines@[i])@ == ls[i],
            0 <= idx <= lines@.len(),
            version_scan(ls, 0) == version_scan(ls, idx as int),
        decreases lines@.len() - idx,
    {
        let t = trim(lines[idx].as_slice());
        proof {
            assert(lines@[idx as int]@ == ls[idx as int]);
        }
        if starts_with(t.as_slice(), "Version:".as_bytes()) {
            return kv_value(t.as_slice());
        }
        idx = idx + 1;
    }
    let mut v: Vec<u8> = Vec::new();
    push_bytes(&mut v, "Unknown".as_bytes());
    proof {
        assert(v@ =~= ("Unknown").spec_bytes());
    }
    v
}

/// Position of the last dot of a file name, or a negative value if it has
/// none.
pub open spec fn last_dot(s: Seq<u8>) -> int
    decreases s.len(),
{
    if s.len() == 0 {
        -1
    } else if s.last() == 46 {
        s.len() - 1
    } else {
        last_dot(s.drop_last())
    }
}

pub proof fn lemma_last_dot_at(s: Seq<u8>, d: int)
    requires
        0 <= d < s.len(),
        s[d] == 46,
        forall|k: int| d < k < s.len() ==> s[k] != 46,
    ensures
        last_dot(s) == d,
    decreases s.len(),
{
    if d < s.len() - 1 {
        lemma_last_dot_at(s.drop_last(), d);
    }
}

pub proof fn lemma_last_dot_none(s: Seq<u8>)
    requires
        forall|k: int| 0 <= k < s.len() ==> s[k] != 46,
    ensures
        last_dot(s) == -1,
    decreases s.len(),
{
    if s.len() > 0 {
        lemma_last_dot_none(s.drop_last());
    }
}

pub open spec fn lower_byte(b: u8) -> u8 {
    if 65 <= b <= 90 {
        (b + 32) as u8
    } else {
        b
    }
}

pub open spec fn lower_seq(s: Seq<u8>) -> Seq<u8> {
    Seq::new(s.len(), |i: int| lower_byte(s[i]))
}

/// Whether a background file name carries a loadable image format: its
/// extension (what follows the last dot), lowercased, is png, jpg or jpeg.
pub open spec fn bg_supported_spec(s: Seq<u8>) -> bool {
    let d = last_dot(s);
    if d < 0 {
        false
    } else {
        let e = lower_seq(s.subrange(d + 1, s.len() as int));
        e == ("png").spec_bytes() || e == ("jpg").spec_bytes() || e == ("jpeg").spec_bytes()
    }
}

/// Whether a background file name ends in a loadable image format.
pub fn background_supported(name: &[u8]) -> (r: bool)
    ensures
        r == bg_supported_spec(name@),
{
    let n = name.len();
    let mut i: usize = n;
    while i > 0
        invariant
            0 <= i <= n,
            n == name@.len(),
            forall|k: int| i <= k < n ==> name@[k] != 46,
        decreases i,
    {
        i = i - 1;
        if name[i] == 46 {
            proof {
                lemma_last_dot_at(name@, i as int);
            }
            let mut ext: Vec<u8> = Vec::new();
            let mut j = i + 1;
            while j < n
                invariant
                    i + 1 <= j <= n,
                    n == name@.len(),
                    i < n,
                    ext@ == lower_seq(name@.subrange(i as int + 1, j as int)),
                decreases n - j,
            {
                let b = name[j];
                let lb = if b >= 65 && b <= 90 {
                    b + 32
                } else {
                    b
                };
                ext.push(lb);
                proof {
                    assert(ext@ =~= lower_seq(name@.subrange(i as int + 1, j as int + 1)));
                }
                j = j + 1;
            }
            let a = bytes_eq(ext.as_slice(), "png".as_bytes());
            let b = bytes_eq(ext.as_slice(), "jpg".as_bytes());
            let c = bytes_eq(ext.as_slice(), "jpeg".as_bytes());
            return a || b || c;
        }
    }
    proof {
        lemma_last_dot_none(name@);
    }
    false
}

} // verus!
