use lib::lcg::{lcg_next, LCG_INCREMENT, LCG_MULTIPLIER};

#[test]
fn lcg_next_known_values() {
    let mut s: u64 = 42;
    let r = lcg_next(&mut s);
    assert_eq!(r, 10481999410520546993);
    assert_eq!(s, r);
    let r2 = lcg_next(&mut s);
    assert_eq!(r2, 4159066171780167020);
}

#[test]
fn lcg_next_from_zero_is_increment() {
    let mut s: u64 = 0;
    assert_eq!(lcg_next(&mut s), LCG_INCREMENT);
}

#[test]
fn lcg_next_wraps() {
    let mut s: u64 = u64::MAX;
    let expected = u64::MAX.wrapping_mul(LCG_MULTIPLIER).wrapping_add(LCG_INCREMENT);
    assert_eq!(lcg_next(&mut s), expected);
}
