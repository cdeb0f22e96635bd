use lib::ternary::{zero_state, Ternary};

#[test]
fn from_i8_accepts_the_three_values() {
    assert_eq!(Ternary::from_i8(-1), Some(Ternary::Neg));
    assert_eq!(Ternary::from_i8(0), Some(Ternary::Zero));
    assert_eq!(Ternary::from_i8(1), Some(Ternary::Pos));
}

#[test]
fn from_i8_rejects_other_values() {
    assert_eq!(Ternary::from_i8(2), None);
    assert_eq!(Ternary::from_i8(-2), None);
    assert_eq!(Ternary::from_i8(i8::MAX), None);
    assert_eq!(Ternary::from_i8(i8::MIN), None);
}

#[test]
fn to_i8_gives_the_value() {
    assert_eq!(Ternary::Neg.to_i8(), -1);
    assert_eq!(Ternary::Zero.to_i8(), 0);
    assert_eq!(Ternary::Pos.to_i8(), 1);
}

#[test]
fn i8_roundtrip() {
    for &t in &[Ternary::Neg, Ternary::Zero, Ternary::Pos] {
        assert_eq!(Ternary::from_i8(t.to_i8()), Some(t));
    }
    for v in -1i8..=1 {
        assert_eq!(Ternary::from_i8(v).unwrap().to_i8(), v);
    }
}

#[test]
fn quantize_picks_by_threshold_tests() {
    assert_eq!(Ternary::quantize(true, false), Ternary::Pos);
    assert_eq!(Ternary::quantize(true, true), Ternary::Pos);
    assert_eq!(Ternary::quantize(false, true), Ternary::Neg);
    assert_eq!(Ternary::quantize(false, false), Ternary::Zero);
}

#[test]
fn quantize_matches_float_thresholds() {
    let q = |v: f64| Ternary::quantize(v > 0.5, v < -0.5);
    assert_eq!(q(0.8), Ternary::Pos);
    assert_eq!(q(-0.7), Ternary::Neg);
    assert_eq!(q(0.2), Ternary::Zero);
    assert_eq!(q(0.5), Ternary::Zero);
    assert_eq!(q(-0.5), Ternary::Zero);
}

#[test]
fn zero_state_is_all_zero() {
    let s = zero_state(10);
    assert_eq!(s.len(), 10);
    assert!(s.iter().all(|t| *t == Ternary::Zero));
    assert!(zero_state(0).is_empty());
}

#[test]
fn quantize_with_update_thresholds() {
    let q = |a: f64| Ternary::quantize(a > 0.25, a < -0.25);
    assert_eq!(q(0.3), Ternary::Pos);
    assert_eq!(q(-0.3), Ternary::Neg);
    assert_eq!(q(0.25), Ternary::Zero);
    assert_eq!(q(-0.25), Ternary::Zero);
    for &t in &[Ternary::Neg, Ternary::Zero, Ternary::Pos] {
        assert_eq!(q(t.to_i8() as f64), t);
    }
}
