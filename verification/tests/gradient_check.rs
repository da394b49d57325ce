//! Numerical check of the analytic gradients: for a single layer, the
//! finite-difference estimate of the loss gradient on each weight must match
//! what `update_gradient` accumulates, within a small tolerance.

use reinforcement::activation::Act;
use reinforcement::fx::{fx_div, fx_sub, SCALE};
use reinforcement::layer::Layer;
use reinforcement::training::{BackProp, Eval};

const S: i64 = SCALE;
/// Perturbation of one weight: 2^-16 in raw units.
const EPS: i64 = 0x1_0000;
/// Tolerance: 1e-4 in raw units.
const TOL: i64 = 429497;

/// The layer's scalar output with one weight nudged by `d`.
fn output_with_nudge(act: Act, w: &[Vec<i64>], b: &[i64], x: &Vec<i64>, i: usize, d: i64) -> i64 {
    let mut w2: Vec<Vec<i64>> = w.to_vec();
    w2[0][i] += d;
    let mut l = Layer::with_params(x.len(), 1, act, w2, b.to_vec());
    l.forward(x)[0]
}

/// Finite differences versus the analytic gradient, for every weight of a
/// 2-input single-output layer.
fn check_layer(act: Act, w: Vec<Vec<i64>>, b: Vec<i64>, x: Vec<i64>) {
    let mut l = Layer::with_params(2, 1, act, w.clone(), b.clone());
    l.forward(&x);
    // delta of one: the gradient of the raw output itself
    l.update_gradient(S, &vec![S]);
    for i in 0..2 {
        let up = output_with_nudge(act, &w, &b, &x, i, EPS);
        let down = output_with_nudge(act, &w, &b, &x, i, -EPS);
        let numeric = fx_div(fx_sub(up, down), 2 * EPS);
        let analytic = l.grad_at(0, i);
        assert!(
            (numeric - analytic).abs() <= TOL,
            "weight {i}: numeric {numeric} vs analytic {analytic}"
        );
    }
}

#[test]
fn gradient_check_identity() {
    check_layer(
        Act::Id,
        vec![vec![S / 2, -S / 3]],
        vec![S / 8],
        vec![3 * S / 4, S / 2],
    );
}

#[test]
fn gradient_check_relu_away_from_the_kink() {
    // pre-activation clearly positive: the derivative is one
    check_layer(Act::ReLu, vec![vec![S, S / 2]], vec![S], vec![S, S / 2]);
    // pre-activation clearly negative: the derivative is zero
    check_layer(Act::ReLu, vec![vec![S, S / 2]], vec![-4 * S], vec![S, S / 2]);
}

#[test]
fn gradient_check_sigmoid() {
    check_layer(
        Act::Sigmoid,
        vec![vec![S / 2, -S / 4]],
        vec![S / 16],
        vec![S / 2, 3 * S / 4],
    );
    check_layer(Act::Sigmoid, vec![vec![2 * S, S]], vec![0], vec![S, -S / 2]);
}

#[test]
fn gradient_check_symmetric_sigmoid() {
    check_layer(
        Act::SigmoidSim,
        vec![vec![S / 3, S / 5]],
        vec![-S / 7],
        vec![S, S / 2],
    );
}
