use lib::ternary::Ternary;
use lib::washout::StateCollector;

fn state(k: usize) -> Vec<Ternary> {
    let t = match k % 3 {
        0 => Ternary::Neg,
        1 => Ternary::Zero,
        _ => Ternary::Pos,
    };
    vec![t; 4]
}

#[test]
fn washout_drops_leading_states() {
    let mut c = StateCollector::new(2);
    for k in 0..5 {
        c.observe(&state(k));
    }
    let states = c.into_states();
    assert_eq!(states.len(), 3);
    assert_eq!(states, vec![state(2), state(3), state(4)]);
}

#[test]
fn no_washout_keeps_every_state() {
    let mut c = StateCollector::new(0);
    for k in 0..3 {
        c.observe(&state(k));
    }
    assert_eq!(c.into_states(), vec![state(0), state(1), state(2)]);
}

#[test]
fn washout_longer_than_run_keeps_nothing() {
    let mut c = StateCollector::new(10);
    for k in 0..4 {
        c.observe(&state(k));
    }
    assert!(c.into_states().is_empty());
}

#[test]
fn kept_state_is_a_copy() {
    let mut c = StateCollector::new(0);
    let mut s = state(0);
    c.observe(&s);
    s[0] = Ternary::Pos;
    c.observe(&s);
    let states = c.into_states();
    assert_eq!(states[0], state(0));
    assert_eq!(states[1][0], Ternary::Pos);
}

#[test]
fn skip_washout_drops_leading_targets() {
    let targets = vec![vec![1.0], vec![2.0], vec![3.0], vec![4.0]];
    assert_eq!(lib::washout::skip_washout(targets.clone(), 1), vec![vec![2.0], vec![3.0], vec![4.0]]);
    assert_eq!(lib::washout::skip_washout(targets.clone(), 0), targets);
    assert_eq!(lib::washout::skip_washout(targets.clone(), 4), Vec::<Vec<f64>>::new());
    assert_eq!(lib::washout::skip_washout(targets, 9), Vec::<Vec<f64>>::new());
}
