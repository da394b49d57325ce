use reinforcement::fx::SCALE;
use reinforcement::score::Score;

const S: i64 = SCALE;

#[test]
fn update_returns_the_advantage() {
    let mut sc = Score::new();
    let d = sc.update(4 * S);
    assert_eq!(d, 4 * S);
    assert_eq!(sc.last_sample(), 4 * S);
    assert_eq!(sc.last_diff(), 4 * S);
    // the mean moved half the distance
    assert_eq!(sc.mean_value(), 2 * S);
    let d2 = sc.update(4 * S);
    assert_eq!(d2, 2 * S);
    assert_eq!(sc.mean_value(), 3 * S);
}

#[test]
fn variance_tracks_squared_deviations_slowly() {
    let mut sc = Score::new();
    sc.update(4 * S);
    // var = 0 - 0/10000 + (4)^2/10000 = 16/10000
    assert_eq!(sc.sigma(), reinforcement::fx::fx_sqrt(16 * S / 10000));
    let before = 16 * S / 10000;
    sc.update(4 * S);
    // second diff is 2: var = before - before/10000 + 4/10000
    let expect = before - before / 10000 + 4 * S / 10000;
    assert_eq!(sc.sigma(), reinforcement::fx::fx_sqrt(expect));
}

#[test]
fn constant_samples_drive_the_mean_to_the_sample() {
    let mut sc = Score::new();
    let c = 7 * S + 12345;
    for _ in 0..50 {
        sc.update(c);
    }
    // within one raw unit (machine epsilon of the fixed-point scalar)
    assert!((sc.mean_value() - c).abs() <= 1, "mean: {}", sc.mean_value());
    let d = sc.update(c);
    assert!(d.abs() <= 1, "diff: {d}");
}

#[test]
fn negative_constant_converges_too() {
    let mut sc = Score::new();
    let c = -3 * S - 99;
    for _ in 0..50 {
        sc.update(c);
    }
    assert!((sc.mean_value() - c).abs() <= 1);
    assert!(sc.update(c).abs() <= 1);
}
