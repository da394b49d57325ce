use reinforcement::activation::{Act, Id, ReLu, Sigmoid, SigmoidSim, Tanh, HALF};
use reinforcement::fx::{
    fx_abs, fx_add, fx_clamp, fx_div, fx_divn, fx_mul, fx_neg, fx_sqrt, fx_sub, MAX_FX, SCALE,
};

const S: i64 = SCALE;

#[test]
fn add_and_sub_are_exact_in_range() {
    assert_eq!(fx_add(3 * S, 4 * S), 7 * S);
    assert_eq!(fx_sub(3 * S, 4 * S), -S);
    assert_eq!(fx_add(-5, 5), 0);
}

#[test]
fn add_saturates_symmetrically() {
    assert_eq!(fx_add(MAX_FX, MAX_FX), MAX_FX);
    assert_eq!(fx_add(-MAX_FX, -MAX_FX), -MAX_FX);
    assert_eq!(fx_sub(-MAX_FX, MAX_FX), -MAX_FX);
    assert_eq!(fx_neg(i64::MIN), MAX_FX);
}

#[test]
fn mul_rescales_exactly() {
    assert_eq!(fx_mul(2 * S, 3 * S), 6 * S);
    assert_eq!(fx_mul(S / 2, S / 2), S / 4);
    assert_eq!(fx_mul(-2 * S, 3 * S), -6 * S);
    assert_eq!(fx_mul(0, MAX_FX), 0);
    // truncation toward zero
    assert_eq!(fx_mul(1, 1), 0);
    assert_eq!(fx_mul(-1, 1), 0);
}

#[test]
fn mul_saturates() {
    assert_eq!(fx_mul(MAX_FX, 2 * S), MAX_FX);
    assert_eq!(fx_mul(MAX_FX, -2 * S), -MAX_FX);
}

#[test]
fn div_is_exact() {
    assert_eq!(fx_div(6 * S, 3 * S), 2 * S);
    assert_eq!(fx_div(S, 2 * S), S / 2);
    assert_eq!(fx_div(-S, 2 * S), -S / 2);
    assert_eq!(fx_div(S, -2 * S), -S / 2);
}

#[test]
fn divn_truncates_toward_zero() {
    assert_eq!(fx_divn(7, 2), 3);
    assert_eq!(fx_divn(-7, 2), -3);
    assert_eq!(fx_divn(S, 10000), S / 10000);
}

#[test]
fn sqrt_is_exact_on_squares() {
    assert_eq!(fx_sqrt(4 * S), 2 * S);
    assert_eq!(fx_sqrt(9 * S), 3 * S);
    assert_eq!(fx_sqrt(S), S);
    assert_eq!(fx_sqrt(0), 0);
    assert_eq!(fx_sqrt(-S), 0);
}

#[test]
fn abs_and_clamp() {
    assert_eq!(fx_abs(-3 * S), 3 * S);
    assert_eq!(fx_abs(3 * S), 3 * S);
    assert_eq!(fx_clamp(5 * S, 0, S), S);
    assert_eq!(fx_clamp(-5 * S, 0, S), 0);
    assert_eq!(fx_clamp(S / 2, 0, S), S / 2);
}

#[test]
fn identity_activation() {
    let a = Id::new().act();
    assert_eq!(a.apply(7 * S), 7 * S);
    assert_eq!(a.apply(-7 * S), -7 * S);
    assert_eq!(a.derivative(123), S);
    assert_eq!(a.range(), (None, None));
}

#[test]
fn relu_activation() {
    let a = ReLu::new().act();
    assert_eq!(a.apply(2 * S), 2 * S);
    assert_eq!(a.apply(-2 * S), 0);
    assert_eq!(a.derivative(2 * S), S);
    assert_eq!(a.derivative(-2 * S), 0);
    assert_eq!(a.derivative(0), 0);
    assert_eq!(a.range(), (Some(0), None));
}

#[test]
fn sigmoid_activation_values() {
    let a = Sigmoid::new().act();
    // value at 0 is one half; at 1 it is 3/4; at -1 it is 1/4
    assert_eq!(a.apply(0), HALF);
    assert_eq!(a.apply(S), 3 * S / 4);
    assert_eq!(a.apply(-S), S / 4);
    // derivative at 0 is 1/2, at 1 it is 1/8
    assert_eq!(a.derivative(0), S / 2);
    assert_eq!(a.derivative(S), S / 8);
    assert_eq!(a.range(), (Some(0), Some(S)));
}

#[test]
fn sigmoid_monotone_and_bounded() {
    let a = Act::Sigmoid;
    let mut prev = a.apply(-1000 * S);
    let mut x = -1000i64;
    while x <= 1000 {
        let y = a.apply(x * S);
        assert!((0..=S).contains(&y));
        assert!(y >= prev);
        prev = y;
        x += 7;
    }
    // the derivative degrades to (almost) zero for huge inputs instead of
    // overflowing: at the far end it is at most a couple of raw units
    assert!((0..=2).contains(&a.derivative(MAX_FX)));
    assert!((0..=2).contains(&a.derivative(-MAX_FX)));
}

#[test]
fn symmetric_sigmoid_values() {
    let a = SigmoidSim::new().act();
    assert_eq!(a.apply(0), 0);
    assert_eq!(a.apply(S), S / 2);
    assert_eq!(a.apply(-S), -S / 2);
    assert_eq!(a.derivative(0), S);
    assert_eq!(a.range(), (Some(-S), Some(S)));
}

#[test]
fn tanh_shares_curve_without_range() {
    let t = Tanh::new().act();
    let s = SigmoidSim::new().act();
    for x in [-5 * S, -S, 0, S, 5 * S] {
        assert_eq!(t.apply(x), s.apply(x));
        assert_eq!(t.derivative(x), s.derivative(x));
    }
    assert_eq!(t.range(), (None, None));
}
