//! Tiers, accuracy, grades and the numeric field parser.

use rustania::decimal::parse_decimal;
use rustania::decimal::parse_i32;
use rustania::judgment::HitJudgment;
use rustania::scoring::Grade;
use rustania::scoring::HitCounts;

#[test]
fn tier_boundaries() {
    assert_eq!(HitJudgment::from_timing(0), HitJudgment::Perfect);
    assert_eq!(HitJudgment::from_timing(40_000), HitJudgment::Perfect);
    assert_eq!(HitJudgment::from_timing(40_001), HitJudgment::Great);
    assert_eq!(HitJudgment::from_timing(75_000), HitJudgment::Great);
    assert_eq!(HitJudgment::from_timing(75_001), HitJudgment::Good);
    assert_eq!(HitJudgment::from_timing(110_000), HitJudgment::Good);
    assert_eq!(HitJudgment::from_timing(110_001), HitJudgment::Okay);
    assert_eq!(HitJudgment::from_timing(135_000), HitJudgment::Okay);
    assert_eq!(HitJudgment::from_timing(135_001), HitJudgment::Miss);
}

#[test]
fn tier_scores() {
    assert_eq!(HitJudgment::Perfect.score_value(), 300);
    assert_eq!(HitJudgment::Great.score_value(), 200);
    assert_eq!(HitJudgment::Good.score_value(), 100);
    assert_eq!(HitJudgment::Okay.score_value(), 50);
    assert_eq!(HitJudgment::Miss.score_value(), 0);
}

#[test]
fn tier_text() {
    assert_eq!(HitJudgment::Perfect.text(), "PERFECT");
    assert_eq!(HitJudgment::Great.text(), "GREAT");
    assert_eq!(HitJudgment::Good.text(), "GOOD");
    assert_eq!(HitJudgment::Okay.text(), "OK");
    assert_eq!(HitJudgment::Miss.text(), "MISS");
}

#[test]
fn accuracy_one_perfect_one_miss() {
    let c = HitCounts { perfect: 1, great: 0, good: 0, okay: 0, miss: 1 };
    assert_eq!(c.weighted(), 300);
    assert_eq!(c.total_judged(), 2);
    // 300 / 600 * 100 = 50.00 %
    assert_eq!(c.accuracy_x100(), 5000);
}

#[test]
fn accuracy_empty_session_is_zero() {
    let c = HitCounts::new();
    assert_eq!(c.accuracy_x100(), 0);
    assert_eq!(c.grade(), Grade::D);
}

#[test]
fn grade_ladder() {
    let ss = HitCounts { perfect: 5, great: 0, good: 0, okay: 0, miss: 0 };
    assert_eq!(ss.grade(), Grade::SS);
    let s = HitCounts { perfect: 19, great: 0, good: 0, okay: 1, miss: 0 };
    // 5750 / 6000 = 95.83 % without a miss
    assert_eq!(s.grade(), Grade::S);
    let a = HitCounts { perfect: 9, great: 0, good: 0, okay: 0, miss: 1 };
    // 2700 / 3000 = 90 % but with a miss
    assert_eq!(a.grade(), Grade::A);
    let b = HitCounts { perfect: 8, great: 0, good: 0, okay: 0, miss: 2 };
    assert_eq!(b.grade(), Grade::B);
    let c = HitCounts { perfect: 7, great: 0, good: 0, okay: 0, miss: 3 };
    assert_eq!(c.grade(), Grade::C);
    let d = HitCounts { perfect: 6, great: 0, good: 0, okay: 0, miss: 4 };
    assert_eq!(d.grade(), Grade::D);
}

#[test]
fn grade_text() {
    assert_eq!(Grade::SS.text(), "SS");
    assert_eq!(Grade::S.text(), "S");
    assert_eq!(Grade::A.text(), "A");
    assert_eq!(Grade::B.text(), "B");
    assert_eq!(Grade::C.text(), "C");
    assert_eq!(Grade::D.text(), "D");
}

#[test]
fn decimal_parses_thousandths() {
    assert_eq!(parse_decimal(b"123.456"), Some(123_456));
    assert_eq!(parse_decimal(b"-50"), Some(-50_000));
    assert_eq!(parse_decimal(b"-0.04"), Some(-40));
    assert_eq!(parse_decimal(b".5"), Some(500));
    assert_eq!(parse_decimal(b"5."), Some(5_000));
    assert_eq!(parse_decimal(b"1.23456"), Some(1_234));
    assert_eq!(parse_decimal(b"0"), Some(0));
}

#[test]
fn decimal_rejects_garbage() {
    assert_eq!(parse_decimal(b""), None);
    assert_eq!(parse_decimal(b"-"), None);
    assert_eq!(parse_decimal(b"."), None);
    assert_eq!(parse_decimal(b"abc"), None);
    assert_eq!(parse_decimal(b"1.2.3"), None);
    assert_eq!(parse_decimal(b" 5"), None);
}

#[test]
fn decimal_range_edges() {
    assert_eq!(parse_decimal(b"1000000000"), Some(1_000_000_000_000));
    assert_eq!(parse_decimal(b"1000000001"), None);
    assert_eq!(parse_decimal(b"12345678901234"), None);
    assert_eq!(parse_decimal(b"-1000000000"), Some(-1_000_000_000_000));
}

#[test]
fn integer_field_parses() {
    assert_eq!(parse_i32(b"128"), Some(128));
    assert_eq!(parse_i32(b"-1"), Some(-1));
    assert_eq!(parse_i32(b"2147483647"), Some(2147483647));
    assert_eq!(parse_i32(b"-2147483648"), Some(-2147483648));
    assert_eq!(parse_i32(b"2147483648"), None);
    assert_eq!(parse_i32(b"12a"), None);
    assert_eq!(parse_i32(b"1.5"), None);
    assert_eq!(parse_i32(b""), None);
}
