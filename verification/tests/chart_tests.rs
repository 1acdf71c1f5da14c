//! Chart parsing, the timing model, sessions from charts, and options.

use rustania::chart::background_supported;
use rustania::chart::parse_chart;
use rustania::chart::start_session;
use rustania::chart::version_from_chart;
use rustania::judgment::HitJudgment;
use rustania::options::GameOptions;
use rustania::options::LaneKey;
use rustania::options::parse_keycode;
use rustania::timing::TimingPoint;
use rustania::timing::velocity_at;

#[test]
fn chart_metadata_and_tap_note() {
    let text = "[General]\nAudioFilename: song.mp3\n\n[Difficulty]\nSliderMultiplier:1.4\n\n[Events]\n0,0,\"bg.png\",0,0\n\n[TimingPoints]\n0,500,4,2,0,100,1,0\n\n[HitObjects]\n64,192,2000,1,0,0:0:0:0:\n";
    let chart = parse_chart(text.as_bytes(), 4);
    assert_eq!(chart.audio_filename, b"song.mp3".to_vec());
    assert_eq!(chart.background_filename, Some(b"bg.png".to_vec()));
    assert_eq!(chart.slider_multiplier_x1000, 1400);
    assert_eq!(chart.timing_points.len(), 1);
    assert_eq!(chart.notes.len(), 1);
    let n = &chart.notes[0];
    assert_eq!(n.lane, 0);
    assert_eq!(n.start_time, 2_000_000);
    assert_eq!(n.end_time, 2_000_000);
    assert!(!n.is_ln);
}

#[test]
fn inherited_timing_point_velocities() {
    // An encoded -50 doubles the velocity, a -200 halves it.
    let text = "[TimingPoints]\n0,500,4\n1000,-50\n2000,-200\n";
    let chart = parse_chart(text.as_bytes(), 4);
    assert_eq!(chart.timing_points.len(), 3);
    assert_eq!(
        chart.timing_points[0],
        TimingPoint { time_us: 0, beat_len_us: 500_000, vel_x1000: 1000 }
    );
    assert_eq!(
        chart.timing_points[1],
        TimingPoint { time_us: 1_000_000, beat_len_us: 500_000, vel_x1000: 2000 }
    );
    assert_eq!(
        chart.timing_points[2],
        TimingPoint { time_us: 2_000_000, beat_len_us: 500_000, vel_x1000: 500 }
    );
}

#[test]
fn velocity_lookup_rule() {
    let pts = vec![
        TimingPoint { time_us: 1_000_000, beat_len_us: 400_000, vel_x1000: 1000 },
        TimingPoint { time_us: 2_000_000, beat_len_us: 400_000, vel_x1000: 2000 },
    ];
    // Before any point: the defaults.
    assert_eq!(velocity_at(&pts, 500_000), (500_000, 1000));
    assert_eq!(velocity_at(&pts, 1_000_000), (400_000, 1000));
    assert_eq!(velocity_at(&pts, 1_999_999), (400_000, 1000));
    assert_eq!(velocity_at(&pts, 2_000_000), (400_000, 2000));
    assert_eq!(velocity_at(&Vec::new(), 0), (500_000, 1000));
}

#[test]
fn hold_note_end_time_and_floor() {
    // An explicit hold end 1.15 s after a 1.0 s start lasts 150 ms: just
    // long enough to play as a long note.
    let text = "[HitObjects]\n64,192,1000,128,0,1150:0:0:0:\n300,192,1000,128,0,1149:0:0:0:\n";
    let chart = parse_chart(text.as_bytes(), 4);
    assert_eq!(chart.notes.len(), 2);
    assert_eq!(chart.notes[0].end_time, 1_150_000);
    assert!(chart.notes[0].is_ln);
    assert_eq!(chart.notes[1].end_time, 1_149_000);
    assert!(!chart.notes[1].is_ln);
    assert_eq!(chart.notes[1].lane, 2);
}

#[test]
fn hold_end_before_start_degrades_to_tap() {
    let text = "[HitObjects]\n64,192,5000,128,0,1000:0:0:0:\n";
    let chart = parse_chart(text.as_bytes(), 4);
    assert_eq!(chart.notes.len(), 1);
    assert_eq!(chart.notes[0].start_time, 5_000_000);
    assert_eq!(chart.notes[0].end_time, 5_000_000);
    assert!(!chart.notes[0].is_ln);
}

#[test]
fn every_note_is_ordered_and_classified() {
    let text = "[TimingPoints]\n0,500,4\n[HitObjects]\n64,192,1000,1,0\n192,192,2000,128,0,2100:0\n256,192,3000,2,0,L|256:192,1,100\nbroken,line\n320,192,4000,128,0,3000:0\n";
    let chart = parse_chart(text.as_bytes(), 4);
    for n in chart.notes.iter() {
        assert!(n.end_time >= n.start_time);
        assert_eq!(n.is_ln, n.end_time - n.start_time >= 150_000);
        assert!(n.lane < 4);
    }
}

#[test]
fn slider_duration_from_velocity_model() {
    // 100 px at multiplier 1.4, base velocity, 500 ms beats:
    // 100 / 140 * 500 ms = 357.142 ms.
    let text = "[Difficulty]\nSliderMultiplier:1.4\n[TimingPoints]\n0,500,4\n[HitObjects]\n256,192,1000,2,0,L|256:192,1,100\n";
    let chart = parse_chart(text.as_bytes(), 4);
    assert_eq!(chart.notes.len(), 1);
    let n = &chart.notes[0];
    assert_eq!(n.lane, 2);
    assert_eq!(n.start_time, 1_000_000);
    assert_eq!(n.end_time, 1_357_142);
    assert!(n.is_ln);
}

#[test]
fn slider_twice_as_fast_under_inherited_point() {
    // The same slider under an inherited -50 (double velocity) lasts half
    // as long: 178.571 ms, below the long-note floor.
    let text = "[Difficulty]\nSliderMultiplier:1.4\n[TimingPoints]\n0,500,4\n500,-50\n[HitObjects]\n256,192,1000,2,0,L|256:192,1,100\n";
    let chart = parse_chart(text.as_bytes(), 4);
    let n = &chart.notes[0];
    assert_eq!(n.end_time, 1_178_571);
    assert!(n.is_ln);
}

#[test]
fn malformed_fields_fall_back_to_defaults() {
    let text = "[Difficulty]\nSliderMultiplier:abc\n[TimingPoints]\nx,y\n[HitObjects]\nz,192,w,q\n";
    let chart = parse_chart(text.as_bytes(), 4);
    assert_eq!(chart.slider_multiplier_x1000, 1400);
    // The malformed timing row still yields the default point.
    assert_eq!(
        chart.timing_points[0],
        TimingPoint { time_us: 0, beat_len_us: 500_000, vel_x1000: 1000 }
    );
    // The malformed object row yields a tap at time zero in lane zero.
    assert_eq!(chart.notes.len(), 1);
    assert_eq!(chart.notes[0].start_time, 0);
    assert_eq!(chart.notes[0].lane, 0);
}

#[test]
fn session_from_chart_press_scenario() {
    let text = "[General]\nAudioFilename: song.mp3\n[HitObjects]\n64,192,2000,1,0\n";
    let mut state = start_session(text.as_bytes(), 4, 30_000_000);
    assert_eq!(state.key_count, 4);
    assert_eq!(state.notes.len(), 1);
    let pressed = vec![true, false, false, false];
    let none = vec![false, false, false, false];
    state.update(&pressed, &none, &pressed, 2_010_000);
    assert_eq!(state.score, 300);
    assert_eq!(state.combo, 1);
    assert_eq!(state.hit_counts.perfect, 1);
    assert_eq!(state.last_judgment, Some(HitJudgment::Perfect));
}

#[test]
fn version_line_names_the_difficulty() {
    let text = "osu file format v14\n[Metadata]\nTitle:Song\nVersion:Hard\n";
    assert_eq!(version_from_chart(text.as_bytes()), b"Hard".to_vec());
    let text = "[Metadata]\nTitle:Song\n";
    assert_eq!(version_from_chart(text.as_bytes()), b"Unknown".to_vec());
}

#[test]
fn background_formats() {
    assert!(background_supported(b"bg.png"));
    assert!(background_supported(b"bg.PNG"));
    assert!(background_supported(b"photo.Jpeg"));
    assert!(background_supported(b"photo.jpg"));
    assert!(!background_supported(b"photo.bmp"));
    assert!(!background_supported(b"noextension"));
}

#[test]
fn background_without_closing_quote_is_skipped() {
    let text = "[Events]\n0,0,\"bg.png\n";
    let chart = parse_chart(text.as_bytes(), 4);
    assert_eq!(chart.background_filename, None);
}

#[test]
fn options_defaults() {
    let o = GameOptions::default();
    assert_eq!(o.keys_2k, [LaneKey::D, LaneKey::K]);
    assert_eq!(o.keys_4k, [LaneKey::D, LaneKey::F, LaneKey::J, LaneKey::K]);
    assert!(!o.reverse_mode);
    assert_eq!(o.scroll_speed, 20);
}

#[test]
fn options_config_round_trip() {
    let o = GameOptions {
        keys_2k: [LaneKey::A, LaneKey::Semicolon],
        keys_4k: [LaneKey::Z, LaneKey::X, LaneKey::Comma, LaneKey::Period],
        reverse_mode: true,
        scroll_speed: 7,
    };
    let text = o.to_config_text();
    let p = GameOptions::from_config_text(text.as_slice());
    assert_eq!(p.keys_2k, o.keys_2k);
    assert_eq!(p.keys_4k, o.keys_4k);
    assert_eq!(p.reverse_mode, o.reverse_mode);
    assert_eq!(p.scroll_speed, o.scroll_speed);
}

#[test]
fn options_serialized_form() {
    let o = GameOptions::default();
    let text = o.to_config_text();
    assert_eq!(
        text,
        b"reverse_mode=false\nkey_2k_0=D\nkey_2k_1=K\nkey_4k_0=D\nkey_4k_1=F\nkey_4k_2=J\nkey_4k_3=K\nscroll_speed=20\n".to_vec()
    );
}

#[test]
fn options_parsing_clamps_and_ignores_junk() {
    let text = "scroll_speed=100\nunknown=3\nkey_4k_2=NotAKey\nreverse_mode=yes\nkey_2k_0=Space\nbroken line\n";
    let o = GameOptions::from_config_text(text.as_bytes());
    assert_eq!(o.scroll_speed, 40);
    assert_eq!(o.keys_4k[2], LaneKey::J);
    assert!(!o.reverse_mode);
    assert_eq!(o.keys_2k[0], LaneKey::Space);
}

#[test]
fn keycode_names_map_both_ways() {
    assert_eq!(parse_keycode(b"LeftShift"), Ok(LaneKey::LeftShift));
    assert_eq!(parse_keycode(b"Key7"), Ok(LaneKey::Key7));
    assert_eq!(parse_keycode(b"D"), Ok(LaneKey::D));
    assert_eq!(parse_keycode(b"NotAKey"), Err(()));
    assert_eq!(LaneKey::RightBracket.key_name(), b"RightBracket".to_vec());
    assert_eq!(parse_keycode(LaneKey::Apostrophe.key_name().as_slice()), Ok(LaneKey::Apostrophe));
}
