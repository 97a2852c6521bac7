use eat::wheel::{ScrollDir, WheelAccel};

const MS: u64 = 1_000_000;

#[test]
fn wheel_accel_slow_returns_one() {
    let mut w = WheelAccel::default();
    // One turn after a long quiet: no streak.
    assert_eq!(w.lines(5 * MS, ScrollDir::Up), 1);
}

#[test]
fn wheel_accel_fast_streak_ramps_to_two() {
    let mut w = WheelAccel::default();
    let mut t = 1_000 * MS;
    // The first turn is the start; the fast ones after it add up.
    w.lines(t, ScrollDir::Up);
    for _ in 0..5 {
        t += 30 * MS;
        w.lines(t, ScrollDir::Up);
    }
    t += 30 * MS;
    assert_eq!(w.lines(t, ScrollDir::Up), 2);
}

#[test]
fn wheel_accel_dir_flip_resets() {
    let mut w = WheelAccel::default();
    let mut t = 1_000 * MS;
    w.lines(t, ScrollDir::Up);
    for _ in 0..10 {
        t += 20 * MS;
        w.lines(t, ScrollDir::Up);
    }
    t += 20 * MS;
    assert_eq!(w.lines(t, ScrollDir::Down), 1);
}

#[test]
fn wheel_accel_quiet_gap_resets() {
    let mut w = WheelAccel::default();
    let mut t = 1_000 * MS;
    w.lines(t, ScrollDir::Up);
    for _ in 0..10 {
        t += 20 * MS;
        w.lines(t, ScrollDir::Up);
    }
    t += 500 * MS;
    assert_eq!(w.lines(t, ScrollDir::Up), 1);
}

#[test]
fn a_streak_is_bounded_and_decays() {
    let mut w = WheelAccel::default();
    let mut t = 0;
    for _ in 0..100 {
        w.lines(t, ScrollDir::Down);
        t += 59 * MS;
    }
    assert_eq!(w.fast_streak, 12);
    t += MS;
    // At the threshold a turn is no longer fast, and takes one off.
    for left in (0..12).rev() {
        let n = w.lines(t, ScrollDir::Down);
        assert_eq!(w.fast_streak, left);
        assert_eq!(n, if left <= 3 { 1 } else { 2 });
        t += 250 * MS;
    }
    assert_eq!(w.lines(t, ScrollDir::Down), 1);
    // A clock that runs backwards counts as no time at all.
    w.lines(0, ScrollDir::Down);
    assert_eq!(w.fast_streak, 1);
}
