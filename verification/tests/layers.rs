use reinforcement::activation::Act;
use reinforcement::fx::SCALE;
use reinforcement::layer::Layer;
use reinforcement::rng::rng_from_seed;
use reinforcement::training::{BackProp, Eval, Gradient, Weights};

const S: i64 = SCALE;

fn affine_layer() -> Layer {
    // 2 inputs, 1 output, identity: out = 3 + 1*x0 + 2*x1
    Layer::with_params(2, 1, Act::Id, vec![vec![S, 2 * S]], vec![3 * S])
}

#[test]
fn forward_computes_the_affine_transform() {
    let mut l = affine_layer();
    let out = l.forward(&vec![S, S]);
    assert_eq!(out, vec![6 * S]);
    let out = l.forward(&vec![-S, 2 * S]);
    assert_eq!(out, vec![6 * S]);
    let out = l.forward(&vec![0, 0]);
    assert_eq!(out, vec![3 * S]);
}

#[test]
fn forward_applies_the_activation() {
    let mut l = Layer::with_params(1, 1, Act::ReLu, vec![vec![S]], vec![-2 * S]);
    assert_eq!(l.forward(&vec![S]), vec![0]);
    assert_eq!(l.forward(&vec![3 * S]), vec![S]);
}

#[test]
fn update_gradient_backpropagates_the_chain_rule() {
    let mut l = affine_layer();
    l.forward(&vec![S, -S]);
    // identity derivative is 1, so local = delta; grad = local * input,
    // backpropagated delta = local * weight
    let dout = l.update_gradient(S, &vec![S]);
    assert_eq!(dout, vec![S, 2 * S]);
    assert_eq!(l.grad_at(0, 0), S);
    assert_eq!(l.grad_at(0, 1), -S);
    assert_eq!(l.grad_bias_at(0), S);
}

#[test]
fn relaxation_blends_old_and_new_gradients() {
    let mut l = affine_layer();
    l.forward(&vec![S, 0]);
    l.update_gradient(S, &vec![S]);
    assert_eq!(l.grad_at(0, 0), S);
    // a second update with relaxation one half averages old and new
    l.forward(&vec![0, 0]);
    l.update_gradient(S / 2, &vec![S]);
    assert_eq!(l.grad_at(0, 0), S / 2);
    assert_eq!(l.grad_bias_at(0), S / 2 + S / 2);
}

#[test]
fn apply_gradient_moves_the_weights() {
    let mut l = affine_layer();
    l.forward(&vec![S, 0]);
    l.update_gradient(S, &vec![S]);
    l.apply_gradient(S / 4);
    assert_eq!(l.weight_at(0, 0), S + S / 4);
    assert_eq!(l.weight_at(0, 1), 2 * S);
    assert_eq!(l.bias_at(0), 3 * S + S / 4);
}

#[test]
fn rescale_and_norm2() {
    let mut l = affine_layer();
    l.forward(&vec![S, S]);
    l.update_gradient(S, &vec![S]);
    // gradient entries: w: [1, 1], bias: 1 -> squared sum 3
    assert_eq!(l.norm2_gradient(), 3 * S);
    l.rescale_gradient(2 * S);
    assert_eq!(l.grad_at(0, 0), 2 * S);
    assert_eq!(l.norm2_gradient(), 12 * S);
}

#[test]
fn reset_gradient_is_idempotent_and_zeroes_the_norm() {
    let mut l = affine_layer();
    l.forward(&vec![S, S]);
    l.update_gradient(S, &vec![S]);
    assert!(l.norm2_gradient() > 0);
    l.reset_gradient();
    let after_once = (l.grad_at(0, 0), l.grad_at(0, 1), l.grad_bias_at(0), l.norm2_gradient());
    l.reset_gradient();
    let after_twice = (l.grad_at(0, 0), l.grad_at(0, 1), l.grad_bias_at(0), l.norm2_gradient());
    assert_eq!(after_once, after_twice);
    assert_eq!(after_once, (0, 0, 0, 0));
}

#[test]
fn add_gradient_sums_entrywise() {
    let mut a = affine_layer();
    let mut b = affine_layer();
    a.forward(&vec![S, 0]);
    a.update_gradient(S, &vec![S]);
    b.forward(&vec![0, S]);
    b.update_gradient(S, &vec![2 * S]);
    a.add_gradient(&b);
    assert_eq!(a.grad_at(0, 0), S);
    assert_eq!(a.grad_at(0, 1), 2 * S);
    assert_eq!(a.grad_bias_at(0), 3 * S);
}

#[test]
fn normalize_gradient_gives_unit_norm() {
    let mut l = affine_layer();
    l.forward(&vec![3 * S, 4 * S]);
    l.update_gradient(S, &vec![S]);
    // gradient (3, 4, 1): squared norm 26
    assert_eq!(l.norm2_gradient(), 26 * S);
    l.normalize_gradient();
    let n2 = l.norm2_gradient();
    // unit norm up to fixed-point truncation
    assert!((n2 - S).abs() < S / 1000, "norm2 after normalize: {n2}");
}

#[test]
fn normalize_leaves_a_zero_gradient_alone() {
    let mut l = affine_layer();
    l.normalize_gradient();
    assert_eq!(l.norm2_gradient(), 0);
    assert_eq!(l.weight_at(0, 0), S);
}

#[test]
fn randomize_respects_the_fan_in_bound() {
    let mut rng = rng_from_seed(11);
    let mut l = Layer::new(8, 4, Act::Id);
    l.randomize(&mut rng);
    let bound = S / 4;
    let mut some_nonzero = false;
    for o in 0..4 {
        for i in 0..8 {
            let w = l.weight_at(o, i);
            assert!((-bound..=bound).contains(&w));
            some_nonzero = some_nonzero || w != 0;
        }
        assert!((-bound..=bound).contains(&l.bias_at(o)));
    }
    assert!(some_nonzero);
    // gradients are untouched by randomization
    assert_eq!(l.norm2_gradient(), 0);
}

#[test]
fn lengths_describe_the_layer() {
    let l = Layer::new(5, 3, Act::Sigmoid);
    assert_eq!(l.input_len(), 5);
    assert_eq!(l.output_len(), 3);
    assert_eq!(l.weights_len(), 18);
    let r = l.output_ranges();
    assert_eq!(r.len(), 3);
    assert_eq!(r[0], (Some(0), Some(S)));
}

#[test]
fn clone_copies_the_whole_state() {
    let mut l = affine_layer();
    l.forward(&vec![S, S]);
    l.update_gradient(S, &vec![S]);
    let c = l.clone();
    assert_eq!(c.weight_at(0, 1), l.weight_at(0, 1));
    assert_eq!(c.grad_at(0, 1), l.grad_at(0, 1));
    assert_eq!(c.norm2_gradient(), l.norm2_gradient());
}
