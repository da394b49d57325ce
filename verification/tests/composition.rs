use reinforcement::activation::{Act, HALF};
use reinforcement::fx::SCALE;
use reinforcement::layer::Layer;
use reinforcement::network::Network;
use reinforcement::rng::rng_from_seed;
use reinforcement::training::{BackProp, Eval, Gradient, Weights};

const S: i64 = SCALE;

fn l1() -> Layer {
    Layer::with_params(
        2,
        3,
        Act::SigmoidSim,
        vec![vec![S, -S], vec![S / 2, S / 4], vec![-S / 3, 2 * S]],
        vec![S / 8, -S / 8, 0],
    )
}

fn l2() -> Layer {
    Layer::with_params(
        3,
        2,
        Act::ReLu,
        vec![vec![S, S / 2, -S / 2], vec![-S, S / 3, S]],
        vec![S / 16, -S / 16],
    )
}

fn l3() -> Layer {
    Layer::with_params(2, 1, Act::Id, vec![vec![S / 2, -S / 4]], vec![S / 32])
}

/// All layers of a network, in forward order.
fn leaves(n: &Network) -> Vec<&Layer> {
    match n {
        Network::Single(l) => vec![l],
        Network::Chain(h, t) => {
            let mut v = leaves(h);
            v.extend(leaves(t));
            v
        },
    }
}

#[test]
fn chain_forward_composes() {
    let mut a = Layer::with_params(1, 1, Act::Id, vec![vec![2 * S]], vec![S]);
    let mut b_for_chain = Layer::with_params(1, 1, Act::Id, vec![vec![3 * S]], vec![0]);
    let x = vec![S];
    let mid = a.forward(&x);
    let expected = b_for_chain.forward(&mid);
    let mut net = Network::chain(
        Network::single(a.clone()),
        Network::single(b_for_chain.clone()),
    );
    assert_eq!(net.forward(&x), expected);
    assert_eq!(net.forward(&x), vec![9 * S]);
    assert_eq!(net.input_len(), 1);
    assert_eq!(net.output_len(), 1);
    assert_eq!(net.weights_len(), 4);
}

#[test]
fn composition_is_associative() {
    // Layer1 -> (Layer2 -> Layer3) versus (Layer1 -> Layer2) -> Layer3
    let mut right = Network::chain(
        Network::single(l1()),
        Network::chain(Network::single(l2()), Network::single(l3())),
    );
    let mut left = Network::chain(
        Network::chain(Network::single(l1()), Network::single(l2())),
        Network::single(l3()),
    );
    let x = vec![3 * S / 4, -S / 2];
    let out_r = right.forward(&x);
    let out_l = left.forward(&x);
    assert_eq!(out_r, out_l);

    let d_r = right.update_gradient(S / 2, &vec![S]);
    let d_l = left.update_gradient(S / 2, &vec![S]);
    assert_eq!(d_r, d_l);
    assert_eq!(right.norm2_gradient(), left.norm2_gradient());

    let lr = leaves(&right);
    let ll = leaves(&left);
    assert_eq!(lr.len(), 3);
    assert_eq!(ll.len(), 3);
    let dims = [(3usize, 2usize), (2, 3), (1, 2)];
    for q in 0..3 {
        let (no, ni) = dims[q];
        for o in 0..no {
            for i in 0..ni {
                assert_eq!(lr[q].grad_at(o, i), ll[q].grad_at(o, i));
            }
            assert_eq!(lr[q].grad_bias_at(o), ll[q].grad_bias_at(o));
        }
    }
}

#[test]
fn network_gradient_ops_recurse() {
    let mut net = Network::chain(Network::single(l1()), Network::single(l2()));
    net.forward(&vec![S, S]);
    net.update_gradient(S, &vec![S, -S]);
    assert!(net.norm2_gradient() > 0);
    net.normalize_gradient();
    let n2 = net.norm2_gradient();
    assert!((n2 - S).abs() < S / 1000, "norm2 after normalize: {n2}");
    net.reset_gradient();
    assert_eq!(net.norm2_gradient(), 0);
    net.reset_gradient();
    assert_eq!(net.norm2_gradient(), 0);
}

#[test]
fn train_fits_a_linear_map() {
    // one identity layer learns y = x0 + x1 approximately
    let mut net = Network::single(Layer::new(2, 1, Act::Id));
    let mut rng = rng_from_seed(5);
    net.randomize(&mut rng);
    let data = vec![
        (vec![0, 0], vec![0]),
        (vec![0, S], vec![S]),
        (vec![S, S], vec![2 * S]),
        (vec![S, 0], vec![S]),
        (vec![-S, -6 * S], vec![-7 * S]),
        (vec![-S, 6 * S], vec![5 * S]),
    ];
    let first_err = net.train(1, S / 10, &data);
    let last_err = net.train(400, S / 50, &data);
    assert!(last_err < first_err, "{last_err} not below {first_err}");
    assert!(last_err < S / 2, "{last_err}");
    let out = net.forward(&vec![S, S]);
    assert!((out[0] - 2 * S).abs() < S / 4, "{}", out[0]);
}

#[test]
fn train_learns_xor() {
    // 2-2-1: symmetric sigmoid hidden, sigmoid output
    let hidden = Layer::new(2, 2, Act::SigmoidSim);
    let out = Layer::new(2, 1, Act::Sigmoid);
    let mut net = Network::chain(Network::single(hidden), Network::single(out));
    let data = vec![
        (vec![0, 0], vec![0]),
        (vec![0, S], vec![S]),
        (vec![S, S], vec![0]),
        (vec![S, 0], vec![S]),
    ];
    let mut rng = rng_from_seed(2);
    net.randomize(&mut rng);
    net.train(400, S / 2, &data);
    net.train(400, S / 10, &data);
    let err = net.train(400, S / 50, &data);
    // mean squared error below 0.05 over the four samples
    assert!(err < 2 * S / 10, "squared error of the last pass: {err}");
    // and the predictions land on the right side of one half
    assert!(net.forward(&vec![0, 0])[0] < HALF);
    assert!(net.forward(&vec![0, S])[0] > HALF);
    assert!(net.forward(&vec![S, S])[0] < HALF);
    assert!(net.forward(&vec![S, 0])[0] > HALF);
}

#[test]
fn train_zero_iterations_changes_nothing() {
    let mut net = Network::single(l3());
    let before = net.forward(&vec![S, S]);
    let err = net.train(0, S, &vec![(vec![S, S], vec![5 * S])]);
    assert_eq!(err, 0);
    assert_eq!(net.forward(&vec![S, S]), before);
}

#[test]
fn output_ranges_come_from_the_final_layer() {
    let net = Network::chain(Network::single(l1()), Network::single(l2()));
    let r = net.output_ranges();
    assert_eq!(r.len(), 2);
    assert_eq!(r[0], (Some(0), None));
    let net2 = Network::single(Layer::new(2, 2, Act::Sigmoid));
    assert_eq!(net2.output_ranges()[1], (Some(0), Some(S)));
}

#[test]
fn train_with_no_samples_is_a_no_op() {
    let mut net = Network::single(l3());
    let before = net.forward(&vec![S, S]);
    let err = net.train(5, S, &vec![]);
    assert_eq!(err, 0);
    assert_eq!(net.forward(&vec![S, S]), before);
}
